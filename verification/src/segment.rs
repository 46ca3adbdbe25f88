//! Splitting a chunk of raw input into escape sequences.
//!
//! A terminal may deliver several key strokes between two reads. The chunk
//! is then cut in front of escape bytes, so that each piece can be shown
//! and decoded by itself. The cut goes by position alone: nothing is asked
//! of what follows an escape byte.

use vstd::prelude::*;
use vstd::slice::slice_subrange;

verus! {

/// The byte that introduces an escape sequence.
pub const ESC: u8 = 0x1B;

/// The test that picks the escape bytes out of a chunk.
pub open spec fn is_escape() -> spec_fn(u8) -> bool {
    |b: u8| b == ESC
}

/// How many escape bytes a chunk holds.
pub open spec fn escape_count(chunk: Seq<u8>) -> nat {
    chunk.filter(is_escape()).len()
}

/// The position of the first escape byte at or after `from`, or the length
/// of the chunk where there is none.
pub open spec fn next_escape(chunk: Seq<u8>, from: int) -> int
    decreases chunk.len() - from,
{
    if from >= chunk.len() {
        chunk.len() as int
    } else if chunk[from] == ESC {
        from
    } else {
        next_escape(chunk, from + 1)
    }
}

/// The pieces of a chunk when `count` escape bytes are still to be given a
/// piece of their own: all but the last piece end in front of the next
/// escape byte behind their first byte, and the last piece is what is left.
pub open spec fn split_at_escapes(chunk: Seq<u8>, count: nat) -> Seq<Seq<u8>>
    decreases count,
{
    if count <= 1 {
        seq![chunk]
    } else {
        let cut = next_escape(chunk, 1);
        seq![chunk.take(cut)] + split_at_escapes(chunk.skip(cut), (count - 1) as nat)
    }
}

/// The sequences of a chunk: the whole chunk where it holds at most one
/// escape byte, else as many pieces as it holds escape bytes.
pub open spec fn sequences(chunk: Seq<u8>) -> Seq<Seq<u8>> {
    split_at_escapes(chunk, escape_count(chunk))
}

/// The shape of the sequences, stated without saying how they are found:
/// as many pieces as `count` says, and one for no count; joined they are
/// the chunk; every piece but the first begins with an escape byte; no
/// piece but the last holds an escape byte behind its first byte, nor is
/// empty.
pub open spec fn is_split_of(pieces: Seq<Seq<u8>>, chunk: Seq<u8>, count: nat) -> bool {
    &&& pieces.len() == if count == 0 {
        1
    } else {
        count
    }
    &&& pieces.flatten() == chunk
    &&& forall|i: int|
        1 <= i < pieces.len() ==> (#[trigger] pieces[i]).len() >= 1 && pieces[i][0] == ESC
    &&& forall|i: int| 0 <= i < pieces.len() - 1 ==> (#[trigger] pieces[i]).len() >= 1
    &&& forall|i: int, j: int|
        0 <= i < pieces.len() - 1 && 1 <= j < (#[trigger] pieces[i]).len() ==> (
        #[trigger] pieces[i][j]) != ESC
}

/// What a list of slices holds.
pub open spec fn contents(pieces: Seq<&[u8]>) -> Seq<Seq<u8>> {
    pieces.map_values(|piece: &[u8]| piece@)
}

/// One more byte adds one to the count if it is an escape byte, else nothing.
pub proof fn lemma_escape_count_push(chunk: Seq<u8>, b: u8)
    ensures
        escape_count(chunk.push(b)) == escape_count(chunk) + if b == ESC {
            1nat
        } else {
            0nat
        },
{
    reveal(Seq::filter);
    assert(chunk.push(b).drop_last() =~= chunk);
}

/// The escape bytes of a chunk are those of its front and those of its back.
pub proof fn lemma_escape_count_concat(front: Seq<u8>, back: Seq<u8>)
    ensures
        escape_count(front + back) == escape_count(front) + escape_count(back),
{
    Seq::filter_distributes_over_add(front, back, is_escape());
}

/// `next_escape` finds an escape byte at or after `from` and passes over none.
pub proof fn lemma_next_escape(chunk: Seq<u8>, from: int)
    requires
        0 <= from,
    ensures
        from <= chunk.len() ==> from <= next_escape(chunk, from) <= chunk.len(),
        from > chunk.len() ==> next_escape(chunk, from) == chunk.len(),
        next_escape(chunk, from) < chunk.len() ==> chunk[next_escape(chunk, from)] == ESC,
        forall|i: int| from <= i < next_escape(chunk, from) ==> chunk[i] != ESC,
    decreases chunk.len() - from,
{
    if from < chunk.len() && chunk[from] != ESC {
        lemma_next_escape(chunk, from + 1);
    }
}

/// The first escape byte at or after `from` is the next escape byte.
pub proof fn lemma_next_escape_is(chunk: Seq<u8>, from: int, at: int)
    requires
        0 <= from <= at < chunk.len(),
        chunk[at] == ESC,
        forall|i: int| from <= i < at ==> chunk[i] != ESC,
    ensures
        next_escape(chunk, from) == at,
    decreases at - from,
{
    if from < at {
        lemma_next_escape_is(chunk, from + 1, at);
    }
}

/// A chunk with no escape byte behind its first byte holds one at most.
proof fn lemma_escape_only_in_front(chunk: Seq<u8>)
    requires
        forall|i: int| 1 <= i < chunk.len() ==> chunk[i] != ESC,
    ensures
        escape_count(chunk) <= 1,
        chunk.len() >= 1 && chunk[0] != ESC ==> escape_count(chunk) == 0,
    decreases chunk.len(),
{
    reveal(Seq::filter);
    if chunk.len() >= 1 {
        let init = chunk.drop_last();
        assert(chunk =~= init.push(chunk.last()));
        lemma_escape_count_push(init, chunk.last());
        lemma_escape_only_in_front(init);
    }
}

/// What a cut leaves behind: where a chunk is cut at the next escape byte
/// behind its first byte, the front holds one escape byte at most.
proof fn lemma_cut(chunk: Seq<u8>)
    ensures
        0 <= next_escape(chunk, 1) <= chunk.len(),
        chunk.len() >= 1 ==> next_escape(chunk, 1) >= 1,
        escape_count(chunk.skip(next_escape(chunk, 1))) + 1 >= escape_count(chunk),
        escape_count(chunk) >= 2 ==> next_escape(chunk, 1) < chunk.len() && chunk[next_escape(
            chunk,
            1,
        )] == ESC,
{
    let cut = next_escape(chunk, 1);
    lemma_next_escape(chunk, 1);
    assert(chunk.take(cut) + chunk.skip(cut) =~= chunk);
    lemma_escape_count_concat(chunk.take(cut), chunk.skip(cut));
    lemma_escape_only_in_front(chunk.take(cut));
    if cut == chunk.len() {
        assert(chunk.take(cut) =~= chunk);
    }
}

/// Counts the escape bytes of a chunk.
pub fn count_escapes(chunk: &[u8]) -> (count: usize)
    ensures
        count == escape_count(chunk@),
{
    let mut count: usize = 0;
    let mut i: usize = 0;
    proof {
        reveal(Seq::filter);
        assert(chunk@.take(0) =~= Seq::<u8>::empty());
    }
    while i < chunk.len()
        invariant
            i <= chunk.len(),
            count <= i,
            count == escape_count(chunk@.take(i as int)),
        decreases chunk.len() - i,
    {
        proof {
            assert(chunk@.take(i + 1) =~= chunk@.take(i as int).push(chunk@[i as int]));
            lemma_escape_count_push(chunk@.take(i as int), chunk@[i as int]);
        }
        if chunk[i] == ESC {
            count += 1;
        }
        i += 1;
    }
    proof {
        assert(chunk@.take(chunk.len() as int) =~= chunk@);
    }
    count
}

/// Looks for the first escape byte at or after `from`.
pub fn find_escape(chunk: &[u8], from: usize) -> (found: Option<usize>)
    ensures
        match found {
            Some(at) => {
                &&& from <= at < chunk.len()
                &&& chunk[at as int] == ESC
                &&& forall|i: int| from <= i < at ==> chunk[i] != ESC
                &&& at == next_escape(chunk@, from as int)
            },
            None => {
                &&& forall|i: int| from <= i < chunk.len() ==> chunk[i] != ESC
                &&& next_escape(chunk@, from as int) == chunk.len()
            },
        },
{
    let mut at: usize = from;
    while at < chunk.len()
        invariant
            from <= at,
            next_escape(chunk@, at as int) == next_escape(chunk@, from as int),
        decreases chunk.len() - at,
    {
        if chunk[at] == ESC {
            proof {
                lemma_next_escape(chunk@, from as int);
            }
            return Some(at);
        }
        at += 1;
    }
    proof {
        lemma_next_escape(chunk@, from as int);
    }
    None
}

/// Splits a chunk into its sequences, in order. Every byte of the chunk goes
/// into one of them.
pub fn split_sequences<'a>(chunk: &'a [u8]) -> (pieces: Vec<&'a [u8]>)
    ensures
        contents(pieces@) == sequences(chunk@),
        contents(pieces@).flatten() == chunk@,
        pieces.len() == if escape_count(chunk@) == 0 {
            1
        } else {
            escape_count(chunk@)
        },
        forall|i: int|
            1 <= i < pieces.len() ==> (#[trigger] pieces[i])@.len() >= 1 && pieces[i]@[0] == ESC,
{
    let mut remaining = count_escapes(chunk);
    let mut rest: &'a [u8] = chunk;
    let mut pieces: Vec<&'a [u8]> = Vec::new();
    proof {
        assert(contents(pieces@) =~= Seq::<Seq<u8>>::empty());
        assert(contents(pieces@) + split_at_escapes(rest@, remaining as nat) =~= sequences(
            chunk@,
        ));
    }
    while remaining > 1
        invariant
            remaining <= escape_count(rest@),
            sequences(chunk@) == contents(pieces@) + split_at_escapes(rest@, remaining as nat),
        decreases remaining,
    {
        proof {
            lemma_cut(rest@);
            lemma_next_escape(rest@, 1);
        }
        let found = find_escape(rest, 1);
        assert(found is Some);
        let cut = found.unwrap();
        let piece = slice_subrange(rest, 0, cut);
        let after = slice_subrange(rest, cut, rest.len());
        proof {
            assert(piece@ =~= rest@.take(cut as int));
            assert(after@ =~= rest@.skip(cut as int));
            assert(contents(pieces@.push(piece)) =~= contents(pieces@).push(piece@));
            assert(contents(pieces@).push(piece@) + split_at_escapes(
                after@,
                (remaining - 1) as nat,
            ) =~= contents(pieces@) + (seq![piece@] + split_at_escapes(
                after@,
                (remaining - 1) as nat,
            )));
        }
        pieces.push(piece);
        rest = after;
        remaining -= 1;
    }
    proof {
        assert(contents(pieces@.push(rest)) =~= contents(pieces@).push(rest@));
        assert(contents(pieces@).push(rest@) =~= contents(pieces@) + seq![rest@]);
        lemma_sequences_rejoin(chunk@);
        lemma_sequences_count(chunk@);
    }
    pieces.push(rest);
    proof {
        assert forall|i: int| 1 <= i < pieces.len() implies (#[trigger] pieces[i])@.len() >= 1
            && pieces[i]@[0] == ESC by {
            assert(contents(pieces@)[i] == pieces[i]@);
        }
    }
    pieces
}

/// Joining the pieces gives the chunk back, whatever the count.
pub proof fn lemma_split_rejoin(chunk: Seq<u8>, count: nat)
    ensures
        split_at_escapes(chunk, count).flatten() == chunk,
    decreases count,
{
    if count <= 1 {
        seq![chunk].lemma_flatten_singleton();
    } else {
        let cut = next_escape(chunk, 1);
        lemma_next_escape(chunk, 1);
        let tail = split_at_escapes(chunk.skip(cut), (count - 1) as nat);
        lemma_split_rejoin(chunk.skip(cut), (count - 1) as nat);
        seq![chunk.take(cut)].lemma_flatten_singleton();
        vstd::seq_lib::lemma_flatten_concat(seq![chunk.take(cut)], tail);
        assert(chunk.take(cut) + chunk.skip(cut) =~= chunk);
    }
}

/// The shape of the pieces where the chunk holds at least `count` escape
/// bytes: as many pieces as `count` says, the first a front part of the
/// chunk, every later one beginning with an escape byte, and none but the
/// last with an escape byte behind its first byte.
pub proof fn lemma_split_shape(chunk: Seq<u8>, count: nat)
    requires
        count <= escape_count(chunk),
    ensures
        split_at_escapes(chunk, count).len() == if count == 0 {
            1
        } else {
            count
        },
        split_at_escapes(chunk, count)[0] == chunk.take(
            split_at_escapes(chunk, count)[0].len() as int,
        ),
        split_at_escapes(chunk, count)[0].len() <= chunk.len(),
        chunk.len() >= 1 ==> split_at_escapes(chunk, count)[0].len() >= 1,
        forall|i: int|
            1 <= i < split_at_escapes(chunk, count).len() ==> (#[trigger] split_at_escapes(
                chunk,
                count,
            )[i]).len() >= 1 && split_at_escapes(chunk, count)[i][0] == ESC,
        forall|i: int, j: int|
            0 <= i < split_at_escapes(chunk, count).len() - 1 && 1 <= j < (
            #[trigger] split_at_escapes(chunk, count)[i]).len() ==> #[trigger] split_at_escapes(
                chunk,
                count,
            )[i][j] != ESC,
    decreases count,
{
    let pieces = split_at_escapes(chunk, count);
    if count <= 1 {
        assert(chunk.take(chunk.len() as int) =~= chunk);
    } else {
        let cut = next_escape(chunk, 1);
        lemma_cut(chunk);
        lemma_next_escape(chunk, 1);
        let back = chunk.skip(cut);
        let tail = split_at_escapes(back, (count - 1) as nat);
        lemma_split_shape(back, (count - 1) as nat);
        assert(pieces =~= seq![chunk.take(cut)] + tail);
        assert(pieces[0] == chunk.take(cut));
        assert(chunk.take(cut).take(cut) =~= chunk.take(cut));
        assert forall|i: int| 1 <= i < pieces.len() implies (#[trigger] pieces[i]).len() >= 1
            && pieces[i][0] == ESC by {
            assert(pieces[i] == tail[i - 1]);
            if i == 1 {
                assert(tail[0] == back.take(tail[0].len() as int));
                assert(back[0] == ESC);
            }
        }
        assert forall|i: int, j: int|
            0 <= i < pieces.len() - 1 && 1 <= j < (#[trigger] pieces[i]).len() implies (
        #[trigger] pieces[i][j]) != ESC by {
            if i >= 1 {
                assert(pieces[i] == tail[i - 1]);
            }
        }
    }
}

/// Only one list of pieces has the shape of the sequences.
pub proof fn lemma_split_unique(pieces: Seq<Seq<u8>>, chunk: Seq<u8>, count: nat)
    requires
        is_split_of(pieces, chunk, count),
    ensures
        pieces == split_at_escapes(chunk, count),
    decreases count,
{
    if count <= 1 {
        pieces.lemma_flatten_singleton();
        assert(pieces =~= seq![chunk]);
    } else {
        let front = pieces[0];
        let rest = pieces.drop_first();
        let cut = front.len() as int;
        assert(pieces.flatten() == front + rest.flatten());
        assert(rest[0] == pieces[1]);
        assert(rest.flatten() == rest[0] + rest.drop_first().flatten());
        assert(chunk[cut] == ESC);
        assert forall|j: int| 1 <= j < cut implies chunk[j] != ESC by {
            assert(chunk[j] == pieces[0][j]);
        }
        lemma_next_escape_is(chunk, 1, cut);
        assert(chunk.take(cut) =~= front);
        assert(chunk.skip(cut) =~= rest.flatten());
        assert forall|i: int| 1 <= i < rest.len() implies (#[trigger] rest[i]).len() >= 1
            && rest[i][0] == ESC by {
            assert(rest[i] == pieces[i + 1]);
        }
        assert forall|i: int| 0 <= i < rest.len() - 1 implies (#[trigger] rest[i]).len()
            >= 1 by {
            assert(rest[i] == pieces[i + 1]);
        }
        assert forall|i: int, j: int|
            0 <= i < rest.len() - 1 && 1 <= j < (#[trigger] rest[i]).len() implies (
        #[trigger] rest[i][j]) != ESC by {
            assert(rest[i] == pieces[i + 1]);
        }
        lemma_split_unique(rest, chunk.skip(cut), (count - 1) as nat);
        assert(pieces =~= seq![front] + rest);
    }
}

/// The sequences of a chunk are the one list of pieces with the shape of
/// the sequences.
pub proof fn lemma_sequences_unique(chunk: Seq<u8>, pieces: Seq<Seq<u8>>)
    ensures
        is_split_of(sequences(chunk), chunk, escape_count(chunk)),
        is_split_of(pieces, chunk, escape_count(chunk)) ==> pieces == sequences(chunk),
{
    lemma_split_shape(chunk, escape_count(chunk));
    lemma_split_rejoin(chunk, escape_count(chunk));
    if is_split_of(pieces, chunk, escape_count(chunk)) {
        lemma_split_unique(pieces, chunk, escape_count(chunk));
    }
}

/// Joining the sequences of a chunk, in order, gives the chunk back: no
/// byte is lost, doubled or moved.
pub proof fn lemma_sequences_rejoin(chunk: Seq<u8>)
    ensures
        sequences(chunk).flatten() == chunk,
{
    lemma_split_rejoin(chunk, escape_count(chunk));
}

/// A chunk with escape bytes has as many sequences as escape bytes, a chunk
/// without has one. Every sequence but the first begins with an escape
/// byte, and none but the last holds one behind its first byte.
pub proof fn lemma_sequences_count(chunk: Seq<u8>)
    ensures
        escape_count(chunk) >= 1 ==> sequences(chunk).len() == escape_count(chunk),
        escape_count(chunk) == 0 ==> sequences(chunk).len() == 1,
        escape_count(chunk) <= 1 ==> sequences(chunk) == seq![chunk],
        forall|i: int|
            1 <= i < sequences(chunk).len() ==> (#[trigger] sequences(chunk)[i]).len() >= 1
                && sequences(chunk)[i][0] == ESC,
        forall|i: int, j: int|
            0 <= i < sequences(chunk).len() - 1 && 1 <= j < (#[trigger] sequences(
                chunk,
            )[i]).len() ==> #[trigger] sequences(chunk)[i][j] != ESC,
        chunk.len() >= 1 ==> forall|i: int|
            0 <= i < sequences(chunk).len() ==> (#[trigger] sequences(chunk)[i]).len() >= 1,
{
    lemma_split_shape(chunk, escape_count(chunk));
}

} // verus!
