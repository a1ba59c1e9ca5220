//! The tail cursor: a byte offset into the followed file. Each poll
//! compares the file size against the offset — a shrink means truncation
//! or rotation and resets the cursor to the file start; growth yields the
//! newly appended bytes, of which only complete, terminator-ended lines
//! are consumed. The offset advances by exactly the bytes consumed, so a
//! partial trailing line is re-read on a later poll.

use vstd::prelude::*;
use crate::bytes::{split_on, views_of, split_bytes, lemma_split_nonempty, lemma_split_free,
    lemma_split_prepend};

verus! {

/// The complete lines of `s`: every `\n`-terminated segment, in order,
/// without its terminator.
pub open spec fn complete_lines(s: Seq<u8>) -> Seq<Seq<u8>> {
    split_on(s, 10).drop_last()
}

/// What follows the last terminator of `s`: the partial trailing line.
pub open spec fn remainder(s: Seq<u8>) -> Seq<u8> {
    split_on(s, 10).last()
}

/// The bytes consumed from `s`: everything up to and including the last
/// terminator.
pub open spec fn consumed_len(s: Seq<u8>) -> int {
    s.len() - remainder(s).len()
}

/// The partial trailing line is never longer than the whole chunk.
pub proof fn lemma_remainder_len(s: Seq<u8>)
    ensures
        remainder(s).len() <= s.len(),
    decreases s.len(),
{
    if s.len() == 0 {
    } else {
        let rest = s.drop_first();
        let sp = split_on(rest, 10);
        lemma_remainder_len(rest);
        lemma_split_nonempty(rest, 10);
        if s[0] == 10 {
            assert((seq![Seq::<u8>::empty()] + sp).last() == sp.last());
        } else {
            if sp.len() == 1 {
                assert(split_on(s, 10) =~= seq![seq![s[0]] + sp[0]]);
                assert(remainder(s) == seq![s[0]] + sp[0]);
                assert(sp[0] == sp.last());
            } else {
                assert((seq![seq![s[0]] + sp[0]] + sp.drop_first()).last() == sp.drop_first().last());
                assert(sp.drop_first().last() == sp.last());
            }
        }
    }
}

/// The total bytes of a sequence of lines, terminators included.
pub open spec fn lines_len(lines: Seq<Seq<u8>>) -> int
    decreases lines.len(),
{
    if lines.len() == 0 {
        0
    } else {
        lines[0].len() + 1 + lines_len(lines.drop_first())
    }
}

/// Law: what the cursor consumes from a chunk is exactly the bytes of the
/// chunk's complete lines, terminators included.
pub proof fn lemma_consumed_is_lines(s: Seq<u8>)
    ensures
        consumed_len(s) == lines_len(complete_lines(s)),
        consumed_len(s) >= 0,
    decreases s.len(),
{
    lemma_remainder_len(s);
    if s.len() == 0 {
        assert(complete_lines(s) =~= Seq::<Seq<u8>>::empty());
    } else {
        let rest = s.drop_first();
        let sp = split_on(rest, 10);
        lemma_consumed_is_lines(rest);
        lemma_split_nonempty(rest, 10);
        if s[0] == 10 {
            assert((seq![Seq::<u8>::empty()] + sp).last() == sp.last());
            assert(remainder(s) == remainder(rest));
            assert(complete_lines(s) =~= seq![Seq::<u8>::empty()] + sp.drop_last());
            assert(complete_lines(s).drop_first() =~= sp.drop_last());
            assert(lines_len(complete_lines(s)) == 1 + lines_len(sp.drop_last()));
        } else {
            if sp.len() == 1 {
                assert(split_on(s, 10) =~= seq![seq![s[0]] + sp[0]]);
                assert(remainder(s) == seq![s[0]] + sp[0]);
                assert(sp[0] == sp.last());
                assert(complete_lines(s) =~= Seq::<Seq<u8>>::empty());
                assert(complete_lines(rest) =~= Seq::<Seq<u8>>::empty());
            } else {
                let first = seq![s[0]] + sp[0];
                assert((seq![first] + sp.drop_first()).last() == sp.drop_first().last());
                assert(sp.drop_first().last() == sp.last());
                assert(remainder(s) == remainder(rest));
                assert(complete_lines(s) =~= seq![first] + sp.drop_first().drop_last());
                assert(complete_lines(s).drop_first() =~= sp.drop_first().drop_last());
                assert(lines_len(complete_lines(s)) == first.len() + 1 + lines_len(
                    sp.drop_first().drop_last(),
                ));
                assert(complete_lines(rest) =~= seq![sp[0]] + sp.drop_first().drop_last());
                assert(complete_lines(rest).drop_first() =~= sp.drop_first().drop_last());
                assert(lines_len(complete_lines(rest)) == sp[0].len() + 1 + lines_len(
                    sp.drop_first().drop_last(),
                ));
            }
        }
    }
}

/// The byte offset separating consumed from not-yet-consumed file content.
pub struct TailCursor {
    pub offset: u64,
}

impl TailCursor {
    /// A cursor standing at `offset` — at startup, just past the header.
    pub fn new(offset: u64) -> (c: TailCursor)
        ensures
            c.offset == offset,
    {
        TailCursor { offset }
    }

    /// One poll against the current file size. A size below the offset is
    /// truncation or rotation: the cursor resets to the file start. The
    /// result is the offset to read new bytes from, or nothing when no
    /// unconsumed bytes exist.
    pub fn poll(&mut self, size: u64) -> (read_from: Option<u64>)
        ensures
            final(self).offset == (if size < old(self).offset {
                0u64
            } else {
                old(self).offset
            }),
            read_from == (if size > final(self).offset {
                Some(final(self).offset)
            } else {
                None::<u64>
            }),
    {
        if size < self.offset {
            self.offset = 0;
        }
        if size > self.offset {
            Some(self.offset)
        } else {
            None
        }
    }

    /// Consumes the complete lines of a chunk read at the cursor, and
    /// advances the cursor by exactly the bytes of those lines,
    /// terminators included. A partial trailing line is neither reported
    /// nor consumed.
    pub fn consume(&mut self, chunk: &[u8]) -> (lines: Vec<Vec<u8>>)
        requires
            old(self).offset + chunk@.len() <= u64::MAX,
        ensures
            views_of(lines@) == complete_lines(chunk@),
            final(self).offset == old(self).offset + consumed_len(chunk@),
            old(self).offset <= final(self).offset,
    {
        let mut parts = split_bytes(chunk, 10);
        proof {
            lemma_split_nonempty(chunk@, 10);
            lemma_remainder_len(chunk@);
            lemma_consumed_is_lines(chunk@);
            assert(parts@.len() == views_of(parts@).len());
        }
        let ghost whole = parts@;
        let tail = parts.pop().unwrap();
        proof {
            assert(whole.last() == tail);
            assert(tail@ == views_of(whole).last());
            assert(tail@ == remainder(chunk@));
            assert(views_of(parts@) =~= complete_lines(chunk@));
        }
        let advance = chunk.len() - tail.len();
        self.offset = self.offset + (advance as u64);
        parts
    }
}

/// The cursor offset after consuming a sequence of chunks in turn, one
/// poll cycle each.
pub open spec fn offset_after(start: int, chunks: Seq<Seq<u8>>) -> int
    decreases chunks.len(),
{
    if chunks.len() == 0 {
        start
    } else {
        offset_after(start + consumed_len(chunks[0]), chunks.drop_first())
    }
}

/// The total bytes of the complete lines of each chunk, terminators
/// included.
pub open spec fn total_consumed(chunks: Seq<Seq<u8>>) -> int
    decreases chunks.len(),
{
    if chunks.len() == 0 {
        0
    } else {
        lines_len(complete_lines(chunks[0])) + total_consumed(chunks.drop_first())
    }
}

/// Law: across any number of poll cycles without truncation, the cursor
/// offset never decreases, and it ends exactly at its start plus the total
/// bytes of the lines it consumed.
pub proof fn lemma_cursor_monotonic(start: int, chunks: Seq<Seq<u8>>)
    ensures
        offset_after(start, chunks) == start + total_consumed(chunks),
        total_consumed(chunks) >= 0,
        offset_after(start, chunks) >= start,
    decreases chunks.len(),
{
    if chunks.len() > 0 {
        lemma_consumed_is_lines(chunks[0]);
        lemma_cursor_monotonic(start + consumed_len(chunks[0]), chunks.drop_first());
    }
}

/// Law: a line that arrives without its terminator is neither reported
/// nor consumed; once the terminator arrives, the whole line is reported
/// exactly once and consumed in full.
pub proof fn lemma_partial_line_safety(line: Seq<u8>)
    requires
        !line.contains(10),
    ensures
        complete_lines(line) == Seq::<Seq<u8>>::empty(),
        consumed_len(line) == 0,
        complete_lines(line + seq![10u8]) == seq![line],
        consumed_len(line + seq![10u8]) == line.len() + 1,
{
    lemma_split_free(line, 10);
    assert(complete_lines(line) =~= Seq::<Seq<u8>>::empty());
    let s = line + seq![10u8];
    assert(s =~= line + seq![10u8] + Seq::<u8>::empty());
    lemma_split_prepend(line, Seq::<u8>::empty(), 10);
    assert(split_on(Seq::<u8>::empty(), 10) =~= seq![Seq::<u8>::empty()]);
    assert(split_on(s, 10) == seq![line] + seq![Seq::<u8>::empty()]);
    assert(complete_lines(s) =~= seq![line]);
    assert(remainder(s) == Seq::<u8>::empty());
}

} // verus!
