//! Keys and paths as byte strings: which keys are safe to place below the
//! cache root, how a key is joined onto a directory, and how the key of a
//! directory is found again from its path.

use crate::bytes::{same_bytes, to_vec, views};
use crate::split::{
    lemma_split_grows, lemma_split_last, lemma_split_nonempty, split_bytes, split_on,
};
use crate::error::{Error, ErrorKind, Result};
use vstd::prelude::*;
use vstd::string::StringExecFns;

verus! {

/// The byte that separates the components of a path.
pub const SEPARATOR: u8 = 0x2f;

/// The byte `.`, of which the names `.` and `..` are made.
pub const DOT: u8 = 0x2e;

/// The pieces of a path between its separators, in order.
pub open spec fn split(s: Seq<u8>) -> Seq<Seq<u8>> {
    split_on(s, SEPARATOR)
}

/// The name of the directory itself, `.`.
pub open spec fn current_dir() -> Seq<u8> {
    seq![DOT]
}

/// The name of the directory above, `..`.
pub open spec fn parent_dir() -> Seq<u8> {
    seq![DOT, DOT]
}

/// A piece that names a file or directory: not empty, and neither `.` nor `..`.
pub open spec fn is_normal(piece: Seq<u8>) -> bool {
    piece.len() > 0 && piece != current_dir() && piece != parent_dir()
}

/// A key that stays below the directory it is joined onto: it holds no NUL
/// byte, and every piece between its separators is normal. Such a key is
/// not empty, is not absolute, and has no separator at its end nor two in a row.
pub open spec fn safe_key(key: Seq<u8>) -> bool {
    &&& !key.contains(0u8)
    &&& forall|i: int| 0 <= i < split(key).len() ==> is_normal(#[trigger] split(key)[i])
}

/// `key` appended to `base`, with one separator between them unless `base`
/// is empty or ends in one.
pub open spec fn join(base: Seq<u8>, key: Seq<u8>) -> Seq<u8> {
    if base.len() == 0 || base.last() == SEPARATOR {
        base + key
    } else {
        base + seq![SEPARATOR] + key
    }
}

/// Whether the piece `s[from..to]` is normal.
fn piece_is_normal(s: &[u8], from: usize, to: usize) -> (r: bool)
    requires
        from <= to <= s.len(),
    ensures
        r == is_normal(s@.subrange(from as int, to as int)),
{
    let ghost piece = s@.subrange(from as int, to as int);
    let len: usize = to - from;
    if len == 0 {
        false
    } else if len == 1 && s[from] == DOT {
        assert(piece =~= current_dir());
        false
    } else if len == 2 && s[from] == DOT && s[from + 1] == DOT {
        assert(piece =~= parent_dir());
        false
    } else {
        assert(piece != current_dir()) by {
            if piece == current_dir() {
                assert(piece.len() == 1 && piece[0] == DOT);
            }
        }
        assert(piece != parent_dir()) by {
            if piece == parent_dir() {
                assert(piece.len() == 2 && piece[0] == DOT && piece[1] == DOT);
            }
        }
        true
    }
}

/// Whether `key` is safe to join onto a directory.
pub fn is_safe_key(key: &[u8]) -> (r: bool)
    ensures
        r == safe_key(key@),
{
    let mut start: usize = 0;
    let mut i: usize = 0;
    while i < key.len()
        invariant
            0 <= start <= i <= key.len(),
            start == 0 || key@[start - 1] == SEPARATOR,
            forall|j: int| start <= j < i ==> key@[j] != SEPARATOR,
            forall|j: int| 0 <= j < i ==> key@[j] != 0u8,
            forall|j: int|
                0 <= j < split(key@.take(i as int)).len() - 1 ==> is_normal(
                    #[trigger] split(key@.take(i as int))[j],
                ),
        decreases key.len() - i,
    {
        let b: u8 = key[i];
        if b == 0 {
            assert(key@.contains(0u8));
            return false;
        }
        proof {
            let now = key@.take(i as int);
            let next = key@.take(i + 1);
            assert(next.drop_last() =~= now);
            lemma_split_last(now, SEPARATOR, start as int);
            assert(now.skip(start as int) =~= key@.subrange(start as int, i as int));
        }
        if b == SEPARATOR {
            if !piece_is_normal(key, start, i) {
                proof {
                    let next = key@.take(i + 1);
                    let at = split(key@.take(i as int)).len() - 1;
                    assert(split(next)[at] == key@.subrange(start as int, i as int));
                    lemma_split_grows(key@, SEPARATOR, i + 1);
                    assert(split(key@)[at] == split(next)[at]);
                }
                return false;
            }
            start = i + 1;
        }
        proof {
            let a = split(key@.take(i as int));
            let b = split(key@.take(i + 1));
            assert forall|j: int| 0 <= j < b.len() - 1 implies is_normal(#[trigger] b[j]) by {
                if j < a.len() - 1 {
                    assert(b[j] == a[j]);
                }
            }
        }
        i += 1;
    }
    proof {
        assert(key@.take(i as int) =~= key@);
        lemma_split_last(key@, SEPARATOR, start as int);
        assert(key@.skip(start as int) =~= key@.subrange(start as int, i as int));
        assert(!key@.contains(0u8));
    }
    if !piece_is_normal(key, start, i) {
        assert(!is_normal(split(key@)[split(key@).len() - 1]));
        return false;
    }
    true
}

/// Appends `key` to `base` as [`join`] says, whatever the key holds.
pub fn join_path(base: &[u8], key: &[u8]) -> (path: Vec<u8>)
    ensures
        path@ == join(base@, key@),
{
    let mut path: Vec<u8> = Vec::new();
    path.extend_from_slice(base);
    if base.len() > 0 && base[base.len() - 1] != SEPARATOR {
        path.push(SEPARATOR);
    }
    path.extend_from_slice(key);
    assert(path@ =~= join(base@, key@));
    path
}

/// Joins a key onto a directory, and refuses every key that is not safe:
/// an absolute one, one with a NUL byte, one with `.` or `..` among its
/// pieces, one with an empty piece.
pub fn safe_join(base: &[u8], other: &[u8]) -> (r: Result<Vec<u8>>)
    ensures
        safe_key(other@) ==> r is Ok && r->Ok_0@ == join(base@, other@),
        !safe_key(other@) ==> r is Err && r->Err_0.kind() == ErrorKind::DangerousKey,
{
    if !is_safe_key(other) {
        return Err(
            Error::DangerousKey(
                String::from_str("Key is not made of plain names with one separator between them"),
            ),
        );
    }
    Ok(join_path(base, other))
}

/// Whether a piece behind the first one is a component of its path: an
/// empty piece and `.` are passed over.
pub open spec fn is_kept(piece: Seq<u8>) -> bool {
    piece.len() > 0 && piece != current_dir()
}

/// The pieces that are components, in order.
pub open spec fn kept_pieces(pieces: Seq<Seq<u8>>) -> Seq<Seq<u8>>
    decreases pieces.len(),
{
    if pieces.len() == 0 {
        Seq::<Seq<u8>>::empty()
    } else if is_kept(pieces.last()) {
        kept_pieces(pieces.drop_last()).push(pieces.last())
    } else {
        kept_pieces(pieces.drop_last())
    }
}

/// The components of a path. An absolute path begins with the root, a lone
/// separator. Empty pieces do not count, and `.` counts only at the very
/// start of a relative path; `..` counts like a name.
pub open spec fn components(path: Seq<u8>) -> Seq<Seq<u8>> {
    let pieces = split(path);
    let root = if path.len() > 0 && path[0] == SEPARATOR {
        seq![seq![SEPARATOR]]
    } else {
        Seq::<Seq<u8>>::empty()
    };
    let head = if pieces[0].len() > 0 {
        seq![pieces[0]]
    } else {
        Seq::<Seq<u8>>::empty()
    };
    root + head + kept_pieces(pieces.skip(1))
}

/// The path made of the given components, each joined onto those before it.
pub open spec fn join_all(parts: Seq<Seq<u8>>) -> Seq<u8>
    decreases parts.len(),
{
    if parts.len() == 0 {
        Seq::<u8>::empty()
    } else {
        join(join_all(parts.drop_last()), parts.last())
    }
}

/// The path that leads from `base` to `ext`: the components of `ext`
/// behind those of `base`, where `ext` begins with all the components of
/// `base` and has more.
pub open spec fn relative_to(base: Seq<u8>, ext: Seq<u8>) -> Option<Seq<u8>> {
    let b = components(base);
    let e = components(ext);
    if b.len() < e.len() && e.take(b.len() as int) == b {
        Some(join_all(e.skip(b.len() as int)))
    } else {
        None
    }
}

/// Cuts a path into its components.
pub fn path_components(path: &[u8]) -> (parts: Vec<Vec<u8>>)
    ensures
        views(parts@) == components(path@),
{
    let pieces = split_bytes(path, SEPARATOR);
    proof {
        lemma_split_nonempty(path@, SEPARATOR);
    }
    let ghost all = split(path@);
    let mut parts: Vec<Vec<u8>> = Vec::new();
    if path.len() > 0 && path[0] == SEPARATOR {
        let mut root: Vec<u8> = Vec::new();
        root.push(SEPARATOR);
        assert(root@ =~= seq![SEPARATOR]);
        parts.push(root);
    }
    assert(views(pieces@)[0] == pieces@[0]@);
    if pieces[0].len() > 0 {
        parts.push(to_vec(pieces[0].as_slice()));
    }
    let ghost front = views(parts@);
    let mut i: usize = 1;
    assert(all.skip(1).take(0) =~= Seq::<Seq<u8>>::empty());
    assert(front =~= front + kept_pieces(all.skip(1).take(0)));
    while i < pieces.len()
        invariant
            1 <= i <= pieces.len(),
            all == views(pieces@),
            views(parts@) == front + kept_pieces(all.skip(1).take(i - 1)),
        decreases pieces.len() - i,
    {
        let piece = &pieces[i];
        let ghost before = views(parts@);
        proof {
            assert(all.skip(1).take(i as int).drop_last() =~= all.skip(1).take(i - 1));
            assert(all.skip(1).take(i as int).last() == piece@);
        }
        let dot = piece.len() == 1 && piece[0] == DOT;
        proof {
            if dot {
                assert(piece@ =~= current_dir());
            } else if piece@ == current_dir() {
                assert(piece@.len() == 1 && piece@[0] == DOT);
            }
        }
        if piece.len() > 0 && !dot {
            parts.push(to_vec(piece.as_slice()));
            assert(views(parts@) =~= before.push(piece@));
        }
        i += 1;
    }
    assert(all.skip(1).take(i - 1) =~= all.skip(1));
    parts
}

/// The path that leads from `base` to `ext`, which lies below it. Fails
/// where `ext` is `base` itself, or does not begin with the components of
/// `base`.
pub fn relativize(base: &[u8], ext: &[u8]) -> (r: Result<Vec<u8>>)
    ensures
        match relative_to(base@, ext@) {
            Some(path) => r is Ok && r->Ok_0@ == path,
            None => r is Err && r->Err_0.kind() == ErrorKind::PathRelativize,
        },
{
    let b = path_components(base);
    let e = path_components(ext);
    if b.len() >= e.len() {
        return Err(
            Error::PathRelativize(String::from_str("Path does not lie below the base")),
        );
    }
    let mut i: usize = 0;
    while i < b.len()
        invariant
            0 <= i <= b.len() < e.len(),
            views(b@) == components(base@),
            views(e@) == components(ext@),
            forall|j: int| 0 <= j < i ==> views(e@)[j] == views(b@)[j],
        decreases b.len() - i,
    {
        if !same_bytes(b[i].as_slice(), e[i].as_slice()) {
            proof {
                assert(views(e@)[i as int] == e@[i as int]@);
                assert(views(b@)[i as int] == b@[i as int]@);
                assert(views(e@).take(b@.len() as int)[i as int] != views(b@)[i as int]);
            }
            return Err(
                Error::PathRelativize(String::from_str("Path component mismatch")),
            );
        }
        proof {
            assert(views(e@)[i as int] == e@[i as int]@);
            assert(views(b@)[i as int] == b@[i as int]@);
        }
        i += 1;
    }
    assert(views(e@).take(b@.len() as int) =~= views(b@));
    let ghost tail = views(e@).skip(b@.len() as int);
    let mut path: Vec<u8> = Vec::new();
    let mut k: usize = b.len();
    assert(tail.take(0) =~= Seq::<Seq<u8>>::empty());
    while k < e.len()
        invariant
            b.len() <= k <= e.len(),
            tail == views(e@).skip(b@.len() as int),
            path@ == join_all(tail.take(k - b.len())),
        decreases e.len() - k,
    {
        proof {
            assert(tail.take(k + 1 - b.len()).drop_last() =~= tail.take(k - b.len()));
            assert(tail.take(k + 1 - b.len()).last() == e@[k as int]@);
        }
        path = join_path(path.as_slice(), e[k].as_slice());
        k += 1;
    }
    assert(tail.take(k - b.len()) =~= tail);
    Ok(path)
}

} // verus!
