//! Per-file digests and their aggregation into one order-independent fingerprint.
use crate::hash::{digest_of, extend, extend_spec, hash_bytes};
use crate::order::{is_sorted, lemma_sorted_unique, sort_digests, views};
use vstd::multiset::Multiset;
use vstd::prelude::*;

verus! {

/// One file as the fingerprint sees it: its path relative to the source root,
/// its content, and whether it is executable.
pub type FileSpec = (Seq<u8>, Seq<u8>, bool);

/// The suffix that records the executable bit: `+x` or `-x`.
pub open spec fn exec_marker(executable: bool) -> Seq<u8> {
    if executable {
        seq![43u8, 120u8]
    } else {
        seq![45u8, 120u8]
    }
}

/// The digest of one file: the digest of its path, extended by the digest of its
/// content, extended by its executable marker.
pub open spec fn file_digest_of(path: Seq<u8>, content: Seq<u8>, executable: bool) -> Seq<u8> {
    extend_spec(extend_spec(digest_of(path), digest_of(content)), exec_marker(executable))
}

/// The per-file digests of a sequence of files, in the same order.
pub open spec fn file_digests(files: Seq<FileSpec>) -> Seq<Seq<u8>> {
    files.map_values(|f: FileSpec| file_digest_of(f.0, f.1, f.2))
}

/// The digests folded from left to right, starting from the digest of nothing.
pub open spec fn fold_digests(s: Seq<Seq<u8>>) -> Seq<u8>
    decreases s.len(),
{
    if s.len() == 0 {
        digest_of(Seq::empty())
    } else {
        extend_spec(fold_digests(s.drop_last()), s.last())
    }
}

/// The elements of a multiset of digests in byte-lexicographic order.
pub open spec fn sorted_of(m: Multiset<Seq<u8>>) -> Seq<Seq<u8>> {
    choose|s: Seq<Seq<u8>>| is_sorted(s) && s.to_multiset() == m
}

/// The fingerprint of a set of files: their digests, sorted, then folded.
pub open spec fn fingerprint_of(files: Seq<FileSpec>) -> Seq<u8> {
    fold_digests(sorted_of(file_digests(files).to_multiset()))
}

/// The `+x` or `-x` marker as bytes.
fn marker(executable: bool) -> (r: Vec<u8>)
    ensures
        r@ == exec_marker(executable),
{
    let mut r: Vec<u8> = Vec::new();
    if executable {
        r.push(43);
    } else {
        r.push(45);
    }
    r.push(120);
    assert(r@ =~= exec_marker(executable));
    r
}

/// The digest of one file from its relative path, content and executable bit.
pub fn file_digest(path: &[u8], content: &[u8], executable: bool) -> (r: Vec<u8>)
    ensures
        r@ == file_digest_of(path@, content@, executable),
{
    let path_digest = hash_bytes(path);
    let content_digest = hash_bytes(content);
    let inner = extend(path_digest.as_slice(), content_digest.as_slice());
    let m = marker(executable);
    extend(inner.as_slice(), m.as_slice())
}

/// Folds digests from left to right, in the order given.
pub fn fold_in_order(digests: &Vec<Vec<u8>>) -> (r: Vec<u8>)
    ensures
        r@ == fold_digests(views(digests@)),
{
    let empty: Vec<u8> = Vec::new();
    let mut acc = hash_bytes(empty.as_slice());
    let ghost s = views(digests@);
    assert(s.take(0) =~= Seq::<Seq<u8>>::empty());
    assert(empty@ =~= Seq::<u8>::empty());
    let mut i: usize = 0;
    while i < digests.len()
        invariant
            i <= digests@.len(),
            s == views(digests@),
            acc@ == fold_digests(s.take(i as int)),
        decreases digests@.len() - i,
    {
        acc = extend(acc.as_slice(), digests[i].as_slice());
        assert(s.take(i as int + 1).drop_last() =~= s.take(i as int));
        i = i + 1;
    }
    assert(s.take(s.len() as int) =~= s);
    acc
}

/// The fingerprint of a collection of per-file digests, whatever their order.
pub fn aggregate(digests: Vec<Vec<u8>>) -> (r: Vec<u8>)
    ensures
        r@ == fold_digests(sorted_of(views(digests@).to_multiset())),
{
    let ghost m = views(digests@).to_multiset();
    let sorted = sort_digests(digests);
    proof {
        let s = views(sorted@);
        assert(is_sorted(s) && s.to_multiset() == m);
        let c = sorted_of(m);
        assert(is_sorted(c) && c.to_multiset() == m);
        lemma_sorted_unique(s, c);
    }
    fold_in_order(&sorted)
}

/// Mapping every element of two sequences that hold the same elements gives two
/// sequences that hold the same elements.
pub proof fn lemma_map_keeps_multiset(a: Seq<FileSpec>, b: Seq<FileSpec>)
    requires
        a.to_multiset() == b.to_multiset(),
    ensures
        file_digests(a).to_multiset() == file_digests(b).to_multiset(),
    decreases a.len(),
{
    broadcast use vstd::seq_lib::group_to_multiset_ensures;
    broadcast use vstd::multiset::group_multiset_axioms;

    assert(a.len() == a.to_multiset().len());
    assert(b.len() == b.to_multiset().len());
    if a.len() == 0 {
        assert(file_digests(a) =~= file_digests(b));
    } else {
        let x = a.last();
        assert(a.to_multiset().count(x) > 0);
        assert(b.contains(x));
        let j = choose|j: int| 0 <= j < b.len() && b[j] == x;
        let a1 = a.drop_last();
        let b1 = b.remove(j);
        assert(a =~= a1.push(x));
        assert(a1.to_multiset() =~= a.to_multiset().remove(x));
        assert(b1.to_multiset() =~= b.to_multiset().remove(x));
        lemma_map_keeps_multiset(a1, b1);
        let fx = file_digest_of(x.0, x.1, x.2);
        assert(file_digests(a) =~= file_digests(a1).push(fx));
        assert(file_digests(b1) =~= file_digests(b).remove(j));
        assert(file_digests(b)[j] == fx);
        let mb = file_digests(b).to_multiset();
        assert(file_digests(b1).to_multiset() == mb.remove(fx));
        assert(mb.count(fx) > 0);
        assert(mb.remove(fx).insert(fx) =~= mb);
    }
}

} // verus!
