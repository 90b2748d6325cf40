//! What holds of keys and paths: which keys are refused, which are
//! accepted, and that the key of a directory is found again from its path.

use crate::bytes::has_prefix;
use crate::split::{
    free_of, lemma_pieces_free, lemma_split_concat, lemma_split_grows, lemma_split_last,
    lemma_split_nonempty, lemma_split_unsplit, lemma_unsplit_free, lemma_unsplit_split, split_on,
    unsplit,
};
use crate::path_util::{
    components, current_dir, is_kept, is_normal, join, join_all, kept_pieces, parent_dir,
    relative_to, safe_key, split, SEPARATOR,
};
use vstd::prelude::*;

verus! {

/// A path of pieces that are not empty and hold no separator, each joined
/// onto those before it, is the pieces with one separator between each two.
pub proof fn lemma_join_all_is_unsplit(parts: Seq<Seq<u8>>)
    requires
        free_of(parts, SEPARATOR),
        forall|i: int| 0 <= i < parts.len() ==> (#[trigger] parts[i]).len() > 0,
    ensures
        join_all(parts) == unsplit(parts, SEPARATOR),
        parts.len() > 0 ==> join_all(parts).len() > 0 && join_all(parts).last() != SEPARATOR,
    decreases parts.len(),
{
    if parts.len() == 0 {
    } else {
        let front = parts.drop_last();
        let last = parts.last();
        assert(free_of(front, SEPARATOR)) by {
            assert forall|i: int, j: int|
                0 <= i < front.len() && 0 <= j < front[i].len()
            implies #[trigger] front[i][j] != SEPARATOR by {
                assert(front[i] == parts[i]);
            }
        }
        assert forall|i: int| 0 <= i < front.len() implies (#[trigger] front[i]).len() > 0 by {
            assert(front[i] == parts[i]);
        }
        lemma_join_all_is_unsplit(front);
        assert(last.len() > 0);
        assert(last[last.len() - 1] != SEPARATOR) by {
            assert(parts[parts.len() - 1][last.len() - 1] != SEPARATOR);
        }
        if front.len() == 0 {
            assert(join_all(front) =~= Seq::<u8>::empty());
            assert(join_all(parts) =~= last);
            assert(parts.len() == 1);
        } else {
            let so_far = join_all(front);
            assert(join(so_far, last) == so_far + seq![SEPARATOR] + last);
            assert(join_all(parts).last() == last.last());
        }
    }
}

/// The keys that are refused. An absolute key, a key with a NUL byte, a
/// key with `.` or `..` among its pieces and a key with an empty piece
/// are not safe, so `safe_join` fails on each of them with `DangerousKey`.
pub proof fn lemma_dangerous_keys(key: Seq<u8>)
    ensures
        key.len() > 0 && key[0] == SEPARATOR ==> !safe_key(key),
        key.contains(0u8) ==> !safe_key(key),
        split(key).contains(current_dir()) ==> !safe_key(key),
        split(key).contains(parent_dir()) ==> !safe_key(key),
        split(key).contains(Seq::<u8>::empty()) ==> !safe_key(key),
        key.len() == 0 ==> !safe_key(key),
{
    lemma_split_nonempty(key, SEPARATOR);
    if key.len() > 0 && key[0] == SEPARATOR {
        lemma_first_piece_of_absolute(key);
        assert(!is_normal(split(key)[0]));
    }
    if split(key).contains(current_dir()) {
        let i = choose|i: int| 0 <= i < split(key).len() && split(key)[i] == current_dir();
        assert(!is_normal(split(key)[i]));
    }
    if split(key).contains(parent_dir()) {
        let i = choose|i: int| 0 <= i < split(key).len() && split(key)[i] == parent_dir();
        assert(!is_normal(split(key)[i]));
    }
    if split(key).contains(Seq::<u8>::empty()) {
        let i = choose|i: int| 0 <= i < split(key).len() && split(key)[i] == Seq::<u8>::empty();
        assert(!is_normal(split(key)[i]));
    }
    if key.len() == 0 {
        assert(!is_normal(split(key)[0]));
    }
}

/// The first piece of an absolute path is empty.
pub proof fn lemma_first_piece_of_absolute(path: Seq<u8>)
    requires
        path.len() > 0,
        path[0] == SEPARATOR,
    ensures
        split(path).len() >= 2,
        split(path)[0].len() == 0,
{
    let first = path.take(1);
    assert(first.drop_last() =~= Seq::<u8>::empty());
    assert(split_on(Seq::<u8>::empty(), SEPARATOR) =~= seq![Seq::<u8>::empty()]);
    assert(first.last() == SEPARATOR);
    assert(split_on(first, SEPARATOR) =~= seq![Seq::<u8>::empty(), Seq::<u8>::empty()]);
    lemma_split_grows(path, SEPARATOR, 1);
    assert(split_on(path, SEPARATOR)[0] == split_on(first, SEPARATOR)[0]);
}

/// The keys that are accepted. One or more normal pieces, without a
/// separator or a NUL byte in them, with one separator between each two
/// of them, make a safe key whose pieces they are; `safe_join` joins it
/// onto `base`, and the path it gives begins with `base` and ends with the key.
pub proof fn lemma_plain_names_are_safe(base: Seq<u8>, parts: Seq<Seq<u8>>)
    requires
        parts.len() > 0,
        free_of(parts, SEPARATOR),
        free_of(parts, 0u8),
        forall|i: int| 0 <= i < parts.len() ==> is_normal(#[trigger] parts[i]),
    ensures
        safe_key(unsplit(parts, SEPARATOR)),
        split(unsplit(parts, SEPARATOR)) == parts,
        has_prefix(join(base, unsplit(parts, SEPARATOR)), base),
        join(base, unsplit(parts, SEPARATOR)).skip(
            join(base, unsplit(parts, SEPARATOR)).len() - unsplit(parts, SEPARATOR).len(),
        ) == unsplit(parts, SEPARATOR),
{
    let key = unsplit(parts, SEPARATOR);
    lemma_split_unsplit(parts, SEPARATOR);
    lemma_unsplit_free(parts, SEPARATOR, 0u8);
    let joined = join(base, key);
    assert(joined.take(base.len() as int) =~= base);
    assert(joined.skip(joined.len() - key.len()) =~= key);
}

/// A safe key is not empty and does not end in a separator, and neither
/// does the directory that it names below any root.
pub proof fn lemma_safe_key_ends(base: Seq<u8>, key: Seq<u8>)
    requires
        safe_key(key),
    ensures
        key.len() > 0,
        key.last() != SEPARATOR,
        join(base, key).len() > 0,
        join(base, key).last() != SEPARATOR,
{
    lemma_dangerous_keys(key);
    lemma_split_nonempty(key.drop_last(), SEPARATOR);
    if key.last() == SEPARATOR {
        assert(split(key).last() == Seq::<u8>::empty());
        assert(!is_normal(split(key)[split(key).len() - 1]));
    }
    assert(join(base, key).last() == key.last());
}

/// What is joined onto a directory is told by the path: two keys that name
/// one directory below a root are one key, and two things in one
/// directory with one path have one name.
pub proof fn lemma_join_cancels(base: Seq<u8>, a: Seq<u8>, b: Seq<u8>)
    requires
        join(base, a) == join(base, b),
    ensures
        a == b,
{
    let glue = join(base, a).len() - a.len();
    assert(join(base, a).skip(glue) =~= a);
    assert(join(base, b).skip(glue) =~= b);
}

/// A path ends in one name only: where a directory and a name without a
/// separator, with a separator between them, make the same path as
/// another directory and another such name, the directories are one and
/// the names are one.
pub proof fn lemma_last_name(a: Seq<u8>, x: Seq<u8>, b: Seq<u8>, y: Seq<u8>)
    requires
        a + seq![SEPARATOR] + x == b + seq![SEPARATOR] + y,
        forall|j: int| 0 <= j < x.len() ==> x[j] != SEPARATOR,
        forall|j: int| 0 <= j < y.len() ==> y[j] != SEPARATOR,
    ensures
        a == b,
        x == y,
{
    let left = a + seq![SEPARATOR] + x;
    let right = b + seq![SEPARATOR] + y;
    if x.len() < y.len() {
        let at = left.len() - x.len() - 1;
        assert(left[at] == SEPARATOR);
        assert(right[at] == y[at - b.len() - 1]);
    } else if y.len() < x.len() {
        let at = right.len() - y.len() - 1;
        assert(right[at] == SEPARATOR);
        assert(left[at] == x[at - a.len() - 1]);
    } else {
        assert(left.take(a.len() as int) =~= a);
        assert(right.take(b.len() as int) =~= b);
        assert(left.skip(a.len() as int + 1) =~= x);
        assert(right.skip(b.len() as int + 1) =~= y);
    }
}

/// The pieces of a safe key, each joined onto those before it, make the key.
pub proof fn lemma_join_all_split(key: Seq<u8>)
    requires
        safe_key(key),
    ensures
        join_all(split(key)) == key,
{
    lemma_pieces_free(key, SEPARATOR);
    lemma_unsplit_split(key, SEPARATOR);
    lemma_join_all_is_unsplit(split(key));
}

/// Passing over what is no component is done piece by piece.
pub proof fn lemma_kept_concat(a: Seq<Seq<u8>>, b: Seq<Seq<u8>>)
    ensures
        kept_pieces(a + b) == kept_pieces(a) + kept_pieces(b),
    decreases b.len(),
{
    if b.len() == 0 {
        assert(a + b =~= a);
        assert(kept_pieces(a) + kept_pieces(b) =~= kept_pieces(a));
    } else {
        lemma_kept_concat(a, b.drop_last());
        assert((a + b).drop_last() =~= a + b.drop_last());
        assert((a + b).last() == b.last());
        if is_kept(b.last()) {
            assert(kept_pieces(a + b) =~= kept_pieces(a) + kept_pieces(b));
        } else {
            assert(kept_pieces(a + b) =~= kept_pieces(a) + kept_pieces(b));
        }
    }
}

/// Normal pieces are all components.
pub proof fn lemma_kept_normal(pieces: Seq<Seq<u8>>)
    requires
        forall|i: int| 0 <= i < pieces.len() ==> is_normal(#[trigger] pieces[i]),
    ensures
        kept_pieces(pieces) == pieces,
    decreases pieces.len(),
{
    if pieces.len() > 0 {
        let front = pieces.drop_last();
        assert forall|i: int| 0 <= i < front.len() implies is_normal(#[trigger] front[i]) by {
            assert(front[i] == pieces[i]);
        }
        lemma_kept_normal(front);
        assert(is_normal(pieces[pieces.len() - 1]));
        assert(kept_pieces(pieces) =~= pieces);
    } else {
        assert(kept_pieces(pieces) =~= pieces);
    }
}

/// The components of a safe key joined onto a directory are the
/// components of the directory and then the pieces of the key.
pub proof fn lemma_components_of_join(base: Seq<u8>, key: Seq<u8>)
    requires
        safe_key(key),
    ensures
        components(join(base, key)) == components(base) + split(key),
{
    let joined = join(base, key);
    let pieces = split(key);
    lemma_split_nonempty(key, SEPARATOR);
    lemma_split_nonempty(base, SEPARATOR);
    lemma_kept_normal(pieces);
    lemma_dangerous_keys(key);
    assert(is_normal(pieces[0]));
    assert forall|i: int| 0 <= i < pieces.skip(1).len() implies is_normal(
        #[trigger] pieces.skip(1)[i],
    ) by {
        assert(pieces.skip(1)[i] == pieces[i + 1]);
    }
    lemma_kept_normal(pieces.skip(1));
    if base.len() == 0 {
        assert(joined =~= key);
        assert(split(base) =~= seq![Seq::<u8>::empty()]);
        assert(split(base).skip(1) =~= Seq::<Seq<u8>>::empty());
        assert(components(base) =~= Seq::<Seq<u8>>::empty());
        assert(seq![pieces[0]] + pieces.skip(1) =~= pieces);
        assert(components(joined) =~= pieces);
    } else if base.last() == SEPARATOR {
        let stem = base.drop_last();
        assert(joined =~= stem + seq![SEPARATOR] + key);
        lemma_split_concat(stem, key, SEPARATOR);
        lemma_split_nonempty(stem, SEPARATOR);
        let stem_pieces = split(stem);
        assert(split(base) =~= stem_pieces.push(Seq::<u8>::empty()));
        assert(split(joined) == stem_pieces + pieces);
        assert(joined[0] == base[0]);
        assert(split(joined)[0] == split(base)[0]);
        assert(split(joined).skip(1) =~= stem_pieces.skip(1) + pieces);
        assert(split(base).skip(1) =~= stem_pieces.skip(1) + seq![Seq::<u8>::empty()]);
        lemma_kept_concat(stem_pieces.skip(1), pieces);
        lemma_kept_concat(stem_pieces.skip(1), seq![Seq::<u8>::empty()]);
        assert(kept_pieces(seq![Seq::<u8>::empty()]) =~= Seq::<Seq<u8>>::empty()) by {
            let one = seq![Seq::<u8>::empty()];
            assert(one.drop_last() =~= Seq::<Seq<u8>>::empty());
            assert(kept_pieces(Seq::<Seq<u8>>::empty()) =~= Seq::<Seq<u8>>::empty());
            assert(!is_kept(one.last()));
        }
        assert(kept_pieces(split(base).skip(1)) =~= kept_pieces(stem_pieces.skip(1)));
        assert(components(joined) =~= components(base) + pieces);
    } else {
        assert(joined =~= base + seq![SEPARATOR] + key);
        lemma_split_concat(base, key, SEPARATOR);
        let base_pieces = split(base);
        assert(split(joined) == base_pieces + pieces);
        assert(joined[0] == base[0]);
        assert(split(joined)[0] == base_pieces[0]);
        assert(split(joined).skip(1) =~= base_pieces.skip(1) + pieces);
        lemma_kept_concat(base_pieces.skip(1), pieces);
        assert(components(joined) =~= components(base) + pieces);
    }
}

/// The key of a directory is found again from its path: for every root
/// and every safe key, the path that leads from the root to the key joined
/// onto the root is the key.
pub proof fn lemma_relativize_round_trip(base: Seq<u8>, key: Seq<u8>)
    requires
        safe_key(key),
    ensures
        relative_to(base, join(base, key)) == Some(key),
{
    lemma_components_of_join(base, key);
    lemma_join_all_split(key);
    lemma_split_nonempty(key, SEPARATOR);
    let b = components(base);
    let e = components(join(base, key));
    assert(e.take(b.len() as int) =~= b);
    assert(e.skip(b.len() as int) =~= split(key));
}

} // verus!
