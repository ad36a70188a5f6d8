//! Byte-lexicographic order on digests, and sorting by it.
use vstd::multiset::Multiset;
use vstd::prelude::*;

verus! {

broadcast use vstd::seq_lib::group_to_multiset_ensures;

/// `a` comes no later than `b` in byte-lexicographic order.
pub open spec fn lex_le(a: Seq<u8>, b: Seq<u8>) -> bool
    decreases a.len(),
{
    if a.len() == 0 {
        true
    } else if b.len() == 0 {
        false
    } else if a[0] != b[0] {
        a[0] < b[0]
    } else {
        lex_le(a.drop_first(), b.drop_first())
    }
}

/// Each element comes no later than every element after it.
pub open spec fn is_sorted(s: Seq<Seq<u8>>) -> bool {
    forall|i: int, j: int| 0 <= i < j < s.len() ==> lex_le(#[trigger] s[i], #[trigger] s[j])
}

/// The byte sequences that a list of vectors holds.
pub open spec fn views(v: Seq<Vec<u8>>) -> Seq<Seq<u8>> {
    v.map_values(|d: Vec<u8>| d@)
}

pub proof fn lemma_lex_total(a: Seq<u8>, b: Seq<u8>)
    ensures
        lex_le(a, b) || lex_le(b, a),
    decreases a.len(),
{
    if a.len() > 0 && b.len() > 0 && a[0] == b[0] {
        lemma_lex_total(a.drop_first(), b.drop_first());
    }
}

pub proof fn lemma_lex_antisymmetric(a: Seq<u8>, b: Seq<u8>)
    requires
        lex_le(a, b),
        lex_le(b, a),
    ensures
        a == b,
    decreases a.len(),
{
    if a.len() > 0 {
        lemma_lex_antisymmetric(a.drop_first(), b.drop_first());
        assert(a =~= seq![a[0]] + a.drop_first());
        assert(b =~= seq![b[0]] + b.drop_first());
    } else {
        assert(b.len() == 0);
        assert(a =~= b);
    }
}

pub proof fn lemma_lex_transitive(a: Seq<u8>, b: Seq<u8>, c: Seq<u8>)
    requires
        lex_le(a, b),
        lex_le(b, c),
    ensures
        lex_le(a, c),
    decreases a.len(),
{
    if a.len() > 0 && b.len() > 0 && c.len() > 0 && a[0] == b[0] && b[0] == c[0] {
        lemma_lex_transitive(a.drop_first(), b.drop_first(), c.drop_first());
    }
}

/// Two sorted sequences that hold the same elements are the same sequence.
pub proof fn lemma_sorted_unique(a: Seq<Seq<u8>>, b: Seq<Seq<u8>>)
    requires
        is_sorted(a),
        is_sorted(b),
        a.to_multiset() == b.to_multiset(),
    ensures
        a == b,
    decreases a.len(),
{
    assert(a.len() == a.to_multiset().len());
    assert(b.len() == b.to_multiset().len());
    if a.len() == 0 {
        assert(a =~= b);
    } else {
        assert(a.to_multiset().count(a[0]) > 0);
        assert(b.contains(a[0]));
        let j = choose|j: int| 0 <= j < b.len() && b[j] == a[0];
        assert(b.to_multiset().count(b[0]) > 0);
        assert(a.contains(b[0]));
        let k = choose|k: int| 0 <= k < a.len() && a[k] == b[0];
        if j > 0 && k > 0 {
            assert(lex_le(b[0], b[j]));
            assert(lex_le(a[0], a[k]));
            lemma_lex_antisymmetric(a[0], b[0]);
        }
        let a1 = a.remove(0);
        let b1 = b.remove(0);
        assert(a1.to_multiset() == a.to_multiset().remove(a[0]));
        assert(b1.to_multiset() == b.to_multiset().remove(b[0]));
        assert forall|i: int, l: int| 0 <= i < l < a1.len() implies lex_le(
            #[trigger] a1[i],
            #[trigger] a1[l],
        ) by {
            assert(a1[i] == a[i + 1] && a1[l] == a[l + 1]);
        }
        assert forall|i: int, l: int| 0 <= i < l < b1.len() implies lex_le(
            #[trigger] b1[i],
            #[trigger] b1[l],
        ) by {
            assert(b1[i] == b[i + 1] && b1[l] == b[l + 1]);
        }
        lemma_sorted_unique(a1, b1);
        assert(a =~= seq![a[0]] + a1);
        assert(b =~= seq![b[0]] + b1);
    }
}

/// Whether `a` comes no later than `b` in byte-lexicographic order.
pub fn lex_less_eq(a: &[u8], b: &[u8]) -> (r: bool)
    ensures
        r == lex_le(a@, b@),
{
    let mut i: usize = 0;
    assert(a@.skip(0) =~= a@);
    assert(b@.skip(0) =~= b@);
    while i < a.len() && i < b.len()
        invariant
            i <= a@.len(),
            i <= b@.len(),
            lex_le(a@, b@) == lex_le(a@.skip(i as int), b@.skip(i as int)),
        decreases a@.len() - i,
    {
        assert(a@.skip(i as int)[0] == a@[i as int]);
        assert(b@.skip(i as int)[0] == b@[i as int]);
        if a[i] != b[i] {
            return a[i] < b[i];
        }
        assert(a@.skip(i as int).drop_first() =~= a@.skip(i as int + 1));
        assert(b@.skip(i as int).drop_first() =~= b@.skip(i as int + 1));
        i = i + 1;
    }
    i == a.len()
}

/// Sorts digests into byte-lexicographic order.
pub fn sort_digests(v: Vec<Vec<u8>>) -> (r: Vec<Vec<u8>>)
    ensures
        is_sorted(views(r@)),
        views(r@).to_multiset() == views(v@).to_multiset(),
{
    let mut rest = v;
    let mut r: Vec<Vec<u8>> = Vec::new();
    assert(views(rest@) =~= views(v@));
    assert(views(r@) =~= Seq::<Seq<u8>>::empty());
    while rest.len() > 0
        invariant
            is_sorted(views(r@)),
            views(r@).to_multiset().add(views(rest@).to_multiset()) == views(v@).to_multiset(),
        decreases rest@.len(),
    {
        let ghost before = views(rest@);
        let x = rest.pop().unwrap();
        assert(before =~= views(rest@).push(x@));
        let mut p: usize = 0;
        while p < r.len() && lex_less_eq(r[p].as_slice(), x.as_slice())
            invariant
                p <= r@.len(),
                forall|k: int| 0 <= k < p ==> lex_le(#[trigger] views(r@)[k], x@),
            decreases r@.len() - p,
        {
            p = p + 1;
        }
        let ghost old_r = views(r@);
        r.insert(p, x);
        assert(views(r@) =~= old_r.insert(p as int, x@));
        assert forall|i: int, j: int| 0 <= i < j < views(r@).len() implies lex_le(
            #[trigger] views(r@)[i],
            #[trigger] views(r@)[j],
        ) by {
            let s = views(r@);
            if j < p {
                assert(s[i] == old_r[i] && s[j] == old_r[j]);
            } else if j == p {
                assert(s[i] == old_r[i]);
            } else if i == p {
                lemma_lex_total(old_r[p as int], x@);
                if (j - 1) as int != p as int {
                    assert(lex_le(old_r[p as int], old_r[j - 1]));
                    lemma_lex_transitive(x@, old_r[p as int], old_r[j - 1]);
                }
            } else if i < p {
                assert(lex_le(old_r[i], old_r[j - 1]));
            } else {
                assert(lex_le(old_r[i - 1], old_r[j - 1]));
            }
        }
    }
    assert(views(rest@) =~= Seq::<Seq<u8>>::empty());
    assert(views(rest@).to_multiset() =~= Multiset::empty());
    r
}

} // verus!
