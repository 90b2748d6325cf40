//! Cutting a byte string at a separator, and what holds of the pieces.

use crate::bytes::views;
use vstd::prelude::*;

verus! {

/// The pieces of `s` between occurrences of `sep`, in order. A text without
/// `sep` is one piece; `sep` at either end, or twice in a row, gives an empty
/// piece.
pub open spec fn split_on(s: Seq<u8>, sep: u8) -> Seq<Seq<u8>>
    decreases s.len(),
{
    if s.len() == 0 {
        seq![Seq::<u8>::empty()]
    } else {
        let before = split_on(s.drop_last(), sep);
        if s.last() == sep {
            before.push(Seq::<u8>::empty())
        } else {
            before.drop_last().push(before.last().push(s.last()))
        }
    }
}

/// `split_on` always yields at least one piece, and the last piece is what
/// follows the last separator.
pub proof fn lemma_split_last(s: Seq<u8>, sep: u8, start: int)
    requires
        0 <= start <= s.len(),
        start == 0 || s[start - 1] == sep,
        forall|j: int| start <= j < s.len() ==> s[j] != sep,
    ensures
        split_on(s, sep).len() > 0,
        split_on(s, sep).last() == s.skip(start),
        start == 0 ==> split_on(s, sep).len() == 1,
    decreases s.len(),
{
    if s.len() == 0 {
        assert(s.skip(start) =~= Seq::<u8>::empty());
    } else if start == s.len() {
        assert(s.skip(start) =~= Seq::<u8>::empty());
        lemma_split_nonempty(s.drop_last(), sep);
    } else {
        let init = s.drop_last();
        lemma_split_last(init, sep, start);
        assert(init.skip(start).push(s.last()) =~= s.skip(start));
    }
}

/// There is always one piece at least.
pub proof fn lemma_split_nonempty(s: Seq<u8>, sep: u8)
    ensures
        split_on(s, sep).len() > 0,
    decreases s.len(),
{
    if s.len() > 0 {
        lemma_split_nonempty(s.drop_last(), sep);
    }
}

/// The pieces that are complete at some point of a path stay as they are
/// when the path goes on.
pub proof fn lemma_split_grows(s: Seq<u8>, sep: u8, k: int)
    requires
        0 <= k <= s.len(),
    ensures
        split_on(s.take(k), sep).len() <= split_on(s, sep).len(),
        forall|i: int|
            0 <= i < split_on(s.take(k), sep).len() - 1 ==> split_on(s, sep)[i]
                == #[trigger] split_on(s.take(k), sep)[i],
    decreases s.len() - k,
{
    lemma_split_nonempty(s.take(k), sep);
    if k == s.len() {
        assert(s.take(k) =~= s);
    } else {
        lemma_split_grows(s, sep, k + 1);
        let a = split_on(s.take(k), sep);
        let b = split_on(s.take(k + 1), sep);
        assert(s.take(k + 1).drop_last() =~= s.take(k));
        assert forall|i: int| 0 <= i < a.len() - 1 implies split_on(s, sep)[i]
            == #[trigger] a[i] by {
            assert(b[i] == a[i]);
            assert(split_on(s, sep)[i] == b[i]);
        }
    }
}

/// Cuts `s` at every occurrence of `sep`.
pub fn split_bytes(s: &[u8], sep: u8) -> (pieces: Vec<Vec<u8>>)
    ensures
        views(pieces@) == split_on(s@, sep),
{
    let mut pieces: Vec<Vec<u8>> = Vec::new();
    let mut piece: Vec<u8> = Vec::new();
    let mut i: usize = 0;
    assert(s@.take(0) =~= Seq::<u8>::empty());
    assert(views(pieces@).push(piece@) =~= split_on(s@.take(0), sep));
    while i < s.len()
        invariant
            0 <= i <= s.len(),
            views(pieces@).push(piece@) == split_on(s@.take(i as int), sep),
        decreases s.len() - i,
    {
        let b: u8 = s[i];
        let ghost before = split_on(s@.take(i as int), sep);
        let ghost done = views(pieces@);
        assert(s@.take(i + 1).drop_last() =~= s@.take(i as int));
        assert(before.last() == piece@ && before.drop_last() =~= done);
        if b == sep {
            pieces.push(piece);
            piece = Vec::new();
            assert(views(pieces@) =~= before);
        } else {
            piece.push(b);
        }
        i += 1;
        assert(views(pieces@).push(piece@) =~= split_on(s@.take(i as int), sep));
    }
    assert(s@.take(i as int) =~= s@);
    let ghost done = views(pieces@);
    pieces.push(piece);
    assert(views(pieces@) =~= done.push(piece@));
    pieces
}

/// The pieces with one separator between each two of them. Only meant for
/// one piece or more.
pub open spec fn unsplit(pieces: Seq<Seq<u8>>, sep: u8) -> Seq<u8>
    decreases pieces.len(),
{
    if pieces.len() <= 1 {
        if pieces.len() == 1 {
            pieces[0]
        } else {
            Seq::<u8>::empty()
        }
    } else {
        unsplit(pieces.drop_last(), sep) + seq![sep] + pieces.last()
    }
}

/// Whether no piece holds the separator.
pub open spec fn free_of(pieces: Seq<Seq<u8>>, sep: u8) -> bool {
    forall|i: int, j: int|
        0 <= i < pieces.len() && 0 <= j < pieces[i].len() ==> #[trigger] pieces[i][j] != sep
}

/// Cutting a text that is two texts with a separator between them gives the
/// pieces of the first and then those of the second.
pub proof fn lemma_split_concat(a: Seq<u8>, b: Seq<u8>, sep: u8)
    ensures
        split_on(a + seq![sep] + b, sep) == split_on(a, sep) + split_on(b, sep),
    decreases b.len(),
{
    let whole = a + seq![sep] + b;
    lemma_split_nonempty(a, sep);
    if b.len() == 0 {
        assert(whole.drop_last() =~= a);
        assert(split_on(b, sep) =~= seq![Seq::<u8>::empty()]);
        assert(split_on(whole, sep) =~= split_on(a, sep) + split_on(b, sep));
    } else {
        let b0 = b.drop_last();
        lemma_split_concat(a, b0, sep);
        lemma_split_nonempty(b0, sep);
        assert(whole.drop_last() =~= a + seq![sep] + b0);
        assert(whole.last() == b.last());
        assert(split_on(whole, sep) =~= split_on(a, sep) + split_on(b, sep));
    }
}

/// No piece of a text holds the separator.
pub proof fn lemma_pieces_free(s: Seq<u8>, sep: u8)
    ensures
        free_of(split_on(s, sep), sep),
    decreases s.len(),
{
    if s.len() > 0 {
        lemma_pieces_free(s.drop_last(), sep);
        lemma_split_nonempty(s.drop_last(), sep);
        let before = split_on(s.drop_last(), sep);
        let now = split_on(s, sep);
        assert forall|i: int, j: int|
            0 <= i < now.len() && 0 <= j < now[i].len()
        implies #[trigger] now[i][j] != sep by {
            if s.last() == sep {
                if i < before.len() {
                    assert(now[i] == before[i]);
                }
            } else {
                if i < before.len() - 1 {
                    assert(now[i] == before[i]);
                } else {
                    assert(now[i] == before.last().push(s.last()));
                    if j < before.last().len() {
                        assert(now[i][j] == before[i][j]);
                    }
                }
            }
        }
    }
}

/// Putting the pieces of a text together again gives the text.
pub proof fn lemma_unsplit_split(s: Seq<u8>, sep: u8)
    ensures
        unsplit(split_on(s, sep), sep) == s,
    decreases s.len(),
{
    if s.len() == 0 {
        assert(unsplit(split_on(s, sep), sep) =~= s);
    } else {
        let init = s.drop_last();
        lemma_unsplit_split(init, sep);
        lemma_split_nonempty(init, sep);
        let before = split_on(init, sep);
        let now = split_on(s, sep);
        if s.last() == sep {
            assert(now.drop_last() =~= before);
            assert(unsplit(now, sep) =~= init + seq![sep]);
            assert(init + seq![sep] =~= s);
        } else {
            let grown = before.last().push(s.last());
            assert(now.last() == grown);
            if before.len() == 1 {
                assert(now =~= seq![grown]);
                assert(unsplit(before, sep) == before[0]);
                assert(unsplit(now, sep) =~= init.push(s.last()));
            } else {
                assert(now.drop_last() =~= before.drop_last());
                assert(unsplit(before, sep) == unsplit(before.drop_last(), sep) + seq![sep]
                    + before.last());
                assert(unsplit(now, sep) =~= unsplit(before, sep).push(s.last()));
            }
            assert(init.push(s.last()) =~= s);
        }
    }
}

/// Cutting what was put together from pieces without a separator in them
/// gives the pieces.
pub proof fn lemma_split_unsplit(pieces: Seq<Seq<u8>>, sep: u8)
    requires
        pieces.len() > 0,
        free_of(pieces, sep),
    ensures
        split_on(unsplit(pieces, sep), sep) == pieces,
    decreases pieces.len(),
{
    let last = pieces.last();
    assert forall|j: int| 0 <= j < last.len() implies last[j] != sep by {
        assert(pieces[pieces.len() - 1][j] != sep);
    }
    lemma_split_last(last, sep, 0);
    assert(last.skip(0) =~= last);
    assert(split_on(last, sep) =~= seq![last]);
    if pieces.len() == 1 {
        assert(pieces =~= seq![last]);
    } else {
        let front = pieces.drop_last();
        assert(free_of(front, sep)) by {
            assert forall|i: int, j: int|
                0 <= i < front.len() && 0 <= j < front[i].len()
            implies #[trigger] front[i][j] != sep by {
                assert(front[i] == pieces[i]);
            }
        }
        lemma_split_unsplit(front, sep);
        lemma_split_concat(unsplit(front, sep), last, sep);
        assert(front + seq![last] =~= pieces);
    }
}

/// A byte that is neither the separator nor in any piece is not in what
/// is put together from the pieces.
pub proof fn lemma_unsplit_free(pieces: Seq<Seq<u8>>, sep: u8, b: u8)
    requires
        free_of(pieces, b),
        b != sep,
    ensures
        !unsplit(pieces, sep).contains(b),
    decreases pieces.len(),
{
    let whole = unsplit(pieces, sep);
    if pieces.len() == 0 {
    } else if pieces.len() == 1 {
        assert forall|j: int| 0 <= j < whole.len() implies whole[j] != b by {
            assert(pieces[0][j] != b);
        }
    } else {
        let front = pieces.drop_last();
        assert(free_of(front, b)) by {
            assert forall|i: int, j: int|
                0 <= i < front.len() && 0 <= j < front[i].len()
            implies #[trigger] front[i][j] != b by {
                assert(front[i] == pieces[i]);
            }
        }
        lemma_unsplit_free(front, sep, b);
        let head = unsplit(front, sep);
        assert forall|j: int| 0 <= j < whole.len() implies whole[j] != b by {
            if j < head.len() {
                assert(whole[j] == head[j]);
                assert(!head.contains(b));
                if head[j] == b {
                    assert(head.contains(b));
                }
            } else if j == head.len() {
            } else {
                assert(whole[j] == pieces[pieces.len() - 1][j - head.len() - 1]);
            }
        }
    }
}

/// A text that ends in the separator has an empty piece at its end,
/// behind the pieces of the text before that separator.
pub proof fn lemma_split_ended(s: Seq<u8>, sep: u8)
    ensures
        split_on(s.push(sep), sep) == split_on(s, sep).push(Seq::<u8>::empty()),
{
    assert(s.push(sep).drop_last() =~= s);
}

/// A text without the separator is one piece.
pub proof fn lemma_split_one(s: Seq<u8>, sep: u8)
    requires
        forall|j: int| 0 <= j < s.len() ==> s[j] != sep,
    ensures
        split_on(s, sep) == seq![s],
{
    lemma_split_last(s, sep, 0);
    assert(s.skip(0) =~= s);
    assert(split_on(s, sep) =~= seq![s]);
}

} // verus!
