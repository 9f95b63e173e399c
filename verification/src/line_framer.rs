//! Reassembly of newline-terminated records from text that arrives in
//! chunks of arbitrary size.

use crate::text::{find_char, lemma_find_char, lemma_find_char_is, str_chars, string_from_chars};
use vstd::prelude::*;

verus! {

/// The character that ends a record.
pub const TERMINATOR: char = '\n';

/// The complete records at the front of `s`, each with its terminator.
pub open spec fn complete_lines(s: Seq<char>) -> Seq<Seq<char>>
    decreases s.len(),
{
    let end = find_char(s, TERMINATOR);
    if 0 <= end < s.len() {
        seq![s.take(end + 1)] + complete_lines(s.skip(end + 1))
    } else {
        Seq::empty()
    }
}

/// What follows the last terminator of `s`: the start of a record that is
/// not complete yet.
pub open spec fn remainder(s: Seq<char>) -> Seq<char>
    decreases s.len(),
{
    let end = find_char(s, TERMINATOR);
    if 0 <= end < s.len() {
        remainder(s.skip(end + 1))
    } else {
        s
    }
}

/// The text of a record without its terminator: a final `\n` is dropped,
/// and a `\r` that stands directly before it as well.
pub open spec fn record_text(raw: Seq<char>) -> Seq<char> {
    if raw.len() > 0 && raw.last() == TERMINATOR {
        let body = raw.drop_last();
        if body.len() > 0 && body.last() == '\r' {
            body.drop_last()
        } else {
            body
        }
    } else {
        raw
    }
}

/// Accumulates incoming text and hands out the records that are complete.
pub struct LineFramer {
    buffer: Vec<char>,
}

impl View for LineFramer {
    type V = Seq<char>;

    /// The text received so far that belongs to no complete record.
    closed spec fn view(&self) -> Seq<char> {
        self.buffer@
    }
}

impl LineFramer {
    /// A framer that holds no text.
    pub fn new() -> (framer: Self)
        ensures
            framer@ == Seq::<char>::empty(),
    {
        LineFramer { buffer: Vec::new() }
    }

    /// The text that waits for its terminator.
    pub fn pending(&self) -> (text: String)
        ensures
            text@ == self@,
    {
        let text = string_from_chars(&self.buffer, 0, self.buffer.len());
        assert(self.buffer@.subrange(0, self.buffer@.len() as int) =~= self.buffer@);
        text
    }

    /// Takes `chunk` in and returns every record that it completes, oldest
    /// first and each with its terminator. What follows the last terminator
    /// stays in the framer.
    pub fn feed(&mut self, chunk: &str) -> (records: Vec<String>)
        ensures
            records.deep_view() == complete_lines(old(self)@ + chunk@),
            final(self)@ == remainder(old(self)@ + chunk@),
    {
        let mut incoming = str_chars(chunk);
        self.feed_chars(&mut incoming)
    }

    /// As `feed`, for a chunk of raw bytes: each byte stands for the
    /// character with the same code.
    pub fn feed_bytes(&mut self, chunk: &[u8]) -> (records: Vec<String>)
        ensures
            records.deep_view() == complete_lines(old(self)@ + bytes_as_chars(chunk@)),
            final(self)@ == remainder(old(self)@ + bytes_as_chars(chunk@)),
    {
        let mut incoming: Vec<char> = Vec::new();
        let mut i: usize = 0;
        while i < chunk.len()
            invariant
                i <= chunk.len(),
                incoming@ == bytes_as_chars(chunk@.take(i as int)),
            decreases chunk.len() - i,
        {
            incoming.push(chunk[i] as char);
            i += 1;
            assert(bytes_as_chars(chunk@.take(i as int)) =~= bytes_as_chars(
                chunk@.take(i as int - 1),
            ).push(chunk@[i as int - 1] as char));
        }
        assert(chunk@.take(chunk@.len() as int) =~= chunk@);
        self.feed_chars(&mut incoming)
    }

    fn feed_chars(&mut self, incoming: &mut Vec<char>) -> (records: Vec<String>)
        ensures
            records.deep_view() == complete_lines(old(self)@ + old(incoming)@),
            final(self)@ == remainder(old(self)@ + old(incoming)@),
    {
        let ghost pending = self.buffer@ + incoming@;
        self.buffer.append(incoming);
        let mut records: Vec<String> = Vec::new();
        let mut start: usize = 0;
        let mut i: usize = 0;
        proof {
            assert(pending.skip(0) =~= pending);
            assert(records.deep_view() + complete_lines(pending) =~= complete_lines(pending));
        }
        while i < self.buffer.len()
            invariant
                self.buffer@ == pending,
                start <= i <= pending.len(),
                forall|j: int| start <= j < i ==> pending[j] != TERMINATOR,
                complete_lines(pending) == records.deep_view() + complete_lines(
                    pending.skip(start as int),
                ),
                remainder(pending) == remainder(pending.skip(start as int)),
            decreases pending.len() - i,
        {
            if self.buffer[i] == TERMINATOR {
                let record = string_from_chars(&self.buffer, start, i + 1);
                proof {
                    let tail = pending.skip(start as int);
                    lemma_find_char_is(tail, TERMINATOR, i - start);
                    assert(tail.take(i - start + 1) =~= pending.subrange(
                        start as int,
                        i as int + 1,
                    ));
                    assert(tail.skip(i - start + 1) =~= pending.skip(i as int + 1));
                    assert(records.deep_view().push(record@) + complete_lines(
                        pending.skip(i as int + 1),
                    ) =~= records.deep_view() + complete_lines(tail));
                }
                let ghost before = records.deep_view();
                records.push(record);
                assert(records.deep_view() =~= before.push(record@));
                start = i + 1;
            }
            i += 1;
        }
        proof {
            let tail = pending.skip(start as int);
            lemma_find_char_is(tail, TERMINATOR, tail.len() as int);
            assert(records.deep_view() + Seq::<Seq<char>>::empty() =~= records.deep_view());
        }
        let rest = self.buffer.split_off(start);
        self.buffer = rest;
        assert(self.buffer@ =~= pending.skip(start as int));
        records
    }
}

/// The text of `record` without its terminator.
pub fn strip_terminator(record: &str) -> (text: String)
    ensures
        text@ == record_text(record@),
{
    let chars = str_chars(record);
    let mut end: usize = chars.len();
    if end > 0 && chars[end - 1] == TERMINATOR {
        end -= 1;
        if end > 0 && chars[end - 1] == '\r' {
            end -= 1;
        }
    }
    let text = string_from_chars(&chars, 0, end);
    assert(text@ =~= record_text(record@));
    text
}

/// The records that come out when `chunks` are fed one after another to a
/// framer that holds `buffer`, and the text that the framer holds afterwards.
pub open spec fn feed_all(buffer: Seq<char>, chunks: Seq<Seq<char>>) -> (Seq<Seq<char>>, Seq<char>)
    decreases chunks.len(),
{
    if chunks.len() == 0 {
        (Seq::empty(), buffer)
    } else {
        let pending = buffer + chunks.first();
        let later = feed_all(remainder(pending), chunks.drop_first());
        (complete_lines(pending) + later.0, later.1)
    }
}

/// Nothing is lost or made up by one extraction: the records with their
/// terminators, followed by what is kept back, spell the text that came in.
pub proof fn lemma_extraction_preserves_text(s: Seq<char>)
    ensures
        complete_lines(s).flatten() + remainder(s) == s,
    decreases s.len(),
{
    lemma_find_char(s, TERMINATOR);
    let end = find_char(s, TERMINATOR);
    if end < s.len() {
        let rest = s.skip(end + 1);
        lemma_extraction_preserves_text(rest);
        vstd::seq_lib::lemma_flatten_concat(seq![s.take(end + 1)], complete_lines(rest));
        seq![s.take(end + 1)].lemma_flatten_one_element();
        assert(s.take(end + 1) + (complete_lines(rest).flatten() + remainder(rest)) =~= s);
        assert(complete_lines(s).flatten() + remainder(s) =~= s.take(end + 1) + (complete_lines(
            rest,
        ).flatten() + remainder(rest)));
    } else {
        assert(complete_lines(s).flatten() =~= Seq::<char>::empty());
        assert(Seq::<char>::empty() + s =~= s);
    }
}

/// Extraction is greedy: what is kept back holds no terminator.
pub proof fn lemma_remainder_has_no_terminator(s: Seq<char>)
    ensures
        forall|j: int| 0 <= j < remainder(s).len() ==> remainder(s)[j] != TERMINATOR,
        find_char(remainder(s), TERMINATOR) == remainder(s).len(),
        complete_lines(remainder(s)) == Seq::<Seq<char>>::empty(),
        remainder(remainder(s)) == remainder(s),
    decreases s.len(),
{
    lemma_find_char(s, TERMINATOR);
    let end = find_char(s, TERMINATOR);
    if end < s.len() {
        lemma_remainder_has_no_terminator(s.skip(end + 1));
    }
}

/// Every record that is handed out ends with the terminator and holds no
/// other.
pub proof fn lemma_lines_are_terminated(s: Seq<char>, i: int)
    requires
        0 <= i < complete_lines(s).len(),
    ensures
        complete_lines(s)[i].len() > 0,
        find_char(complete_lines(s)[i], TERMINATOR) == complete_lines(s)[i].len() - 1,
        complete_lines(s)[i].last() == TERMINATOR,
    decreases s.len(),
{
    lemma_find_char(s, TERMINATOR);
    let end = find_char(s, TERMINATOR);
    if i == 0 {
        lemma_find_char_is(s.take(end + 1), TERMINATOR, end);
    } else {
        lemma_lines_are_terminated(s.skip(end + 1), i - 1);
    }
}

/// Text that arrives behind `head` completes the same records as if the
/// records of `head` had been taken out first.
pub proof fn lemma_extraction_in_two_steps(head: Seq<char>, tail: Seq<char>)
    ensures
        complete_lines(head + tail) == complete_lines(head) + complete_lines(
            remainder(head) + tail,
        ),
        remainder(head + tail) == remainder(remainder(head) + tail),
    decreases head.len(),
{
    lemma_find_char(head, TERMINATOR);
    let end = find_char(head, TERMINATOR);
    if end < head.len() {
        lemma_find_char_is(head + tail, TERMINATOR, end);
        assert((head + tail).take(end + 1) =~= head.take(end + 1));
        assert((head + tail).skip(end + 1) =~= head.skip(end + 1) + tail);
        lemma_extraction_in_two_steps(head.skip(end + 1), tail);
        assert(seq![head.take(end + 1)] + (complete_lines(head.skip(end + 1)) + complete_lines(
            remainder(head) + tail,
        )) =~= complete_lines(head) + complete_lines(remainder(head) + tail));
    } else {
        assert(complete_lines(head) + complete_lines(head + tail) =~= complete_lines(head + tail));
    }
}

/// However the incoming text is cut into chunks, the framer hands out the
/// records of the whole text and keeps back its unfinished end.
pub proof fn lemma_chunking_is_irrelevant(buffer: Seq<char>, chunks: Seq<Seq<char>>)
    requires
        chunks.len() > 0,
    ensures
        feed_all(buffer, chunks).0 == complete_lines(buffer + chunks.flatten()),
        feed_all(buffer, chunks).1 == remainder(buffer + chunks.flatten()),
    decreases chunks.len(),
{
    let pending = buffer + chunks.first();
    let later = chunks.drop_first();
    assert(chunks.flatten() == chunks.first() + later.flatten());
    assert(pending + later.flatten() =~= buffer + chunks.flatten());
    if later.len() == 0 {
        assert(feed_all(remainder(pending), later) == (
            Seq::<Seq<char>>::empty(),
            remainder(pending),
        ));
        assert(later.flatten() =~= Seq::<char>::empty());
        assert(pending + later.flatten() =~= pending);
        assert(complete_lines(pending) + Seq::<Seq<char>>::empty() =~= complete_lines(pending));
    } else {
        lemma_chunking_is_irrelevant(remainder(pending), later);
        lemma_extraction_in_two_steps(pending, later.flatten());
    }
}

/// Over any run of chunks no character is lost or made up: the records that
/// came out, with their terminators, followed by what the framer still holds,
/// spell what it held at first followed by all the chunks.
pub proof fn lemma_feeding_preserves_text(buffer: Seq<char>, chunks: Seq<Seq<char>>)
    ensures
        feed_all(buffer, chunks).0.flatten() + feed_all(buffer, chunks).1 == buffer
            + chunks.flatten(),
{
    if chunks.len() == 0 {
        assert(feed_all(buffer, chunks).0.flatten() =~= Seq::<char>::empty());
        assert(chunks.flatten() =~= Seq::<char>::empty());
        assert(Seq::<char>::empty() + buffer =~= buffer + Seq::<char>::empty());
    } else {
        lemma_chunking_is_irrelevant(buffer, chunks);
        lemma_extraction_preserves_text(buffer + chunks.flatten());
    }
}

/// The characters that a sequence of bytes stands for, byte by byte.
pub open spec fn bytes_as_chars(bytes: Seq<u8>) -> Seq<char> {
    bytes.map_values(|b: u8| b as char)
}

} // verus!
