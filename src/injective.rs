//! The fingerprint determines the files, unless SHA-256 has a collision.
use crate::fingerprint::{
    file_digest_of,
    file_digests,
    fingerprint_of,
    fold_digests,
    sorted_of,
    FileSpec,
};
use crate::hash::{digest_of, extend_spec, hex_digit, hex_of, sha256_of};
use crate::order::{is_sorted, lemma_lex_total, lemma_lex_transitive, lex_le};
use vstd::multiset::Multiset;
use vstd::prelude::*;

verus! {

broadcast use vstd::seq_lib::group_to_multiset_ensures;

/// SHA-256 always gives 32 bytes.
pub open spec fn fixed_width() -> bool {
    forall|a: Seq<u8>| (#[trigger] sha256_of(a)).len() == 32
}

/// Two different inputs with the same SHA-256 digest.
pub open spec fn sha256_collision(x: Seq<u8>, y: Seq<u8>) -> bool {
    x != y && sha256_of(x) == sha256_of(y)
}

/// Fixed width, and no collision anywhere.
spec fn collision_free() -> bool {
    &&& forall|a: Seq<u8>| (#[trigger] sha256_of(a)).len() == 32
    &&& forall|a: Seq<u8>, b: Seq<u8>| #[trigger] sha256_of(a) == #[trigger] sha256_of(b) ==> a == b
}

proof fn lemma_hex_len(b: Seq<u8>)
    ensures
        hex_of(b).len() == 2 * b.len(),
    decreases b.len(),
{
    if b.len() > 0 {
        lemma_hex_len(b.drop_last());
    }
}

proof fn lemma_hex_injective(a: Seq<u8>, b: Seq<u8>)
    requires
        hex_of(a) == hex_of(b),
    ensures
        a == b,
    decreases a.len(),
{
    lemma_hex_len(a);
    lemma_hex_len(b);
    if a.len() > 0 {
        let ha = hex_of(a.drop_last());
        let hb = hex_of(b.drop_last());
        lemma_hex_len(a.drop_last());
        lemma_hex_len(b.drop_last());
        let n: int = ha.len() as int;
        assert(hex_of(a).subrange(0, n) =~= ha);
        assert(hex_of(b).subrange(0, n) =~= hb);
        lemma_hex_injective(a.drop_last(), b.drop_last());
        let x = a.last();
        let y = b.last();
        assert(hex_of(a)[n] == hex_digit(x / 16));
        assert(hex_of(b)[n] == hex_digit(y / 16));
        assert(hex_of(a)[n + 1] == hex_digit(x % 16));
        assert(hex_of(b)[n + 1] == hex_digit(y % 16));
        assert(x / 16 == y / 16);
        assert(x % 16 == y % 16);
        assert(x == y) by (nonlinear_arith)
            requires
                x / 16 == y / 16,
                x % 16 == y % 16,
        ;
        assert(a =~= a.drop_last().push(x));
        assert(b =~= b.drop_last().push(y));
    }
}

proof fn lemma_digest_len(a: Seq<u8>)
    requires
        collision_free(),
    ensures
        digest_of(a).len() == 64,
{
    lemma_hex_len(sha256_of(a));
}

proof fn lemma_digest_injective(a: Seq<u8>, b: Seq<u8>)
    requires
        collision_free(),
        digest_of(a) == digest_of(b),
    ensures
        a == b,
{
    lemma_hex_injective(sha256_of(a), sha256_of(b));
}

/// Equal folds of digests come from equal sequences.
proof fn lemma_fold_injective(s: Seq<Seq<u8>>, t: Seq<Seq<u8>>)
    requires
        collision_free(),
        forall|i: int| 0 <= i < s.len() ==> (#[trigger] s[i]).len() == 64,
        forall|i: int| 0 <= i < t.len() ==> (#[trigger] t[i]).len() == 64,
        fold_digests(s) == fold_digests(t),
    ensures
        s == t,
    decreases s.len(),
{
    if s.len() == 0 && t.len() == 0 {
        assert(s =~= t);
    } else if s.len() == 0 || t.len() == 0 {
        let u = if s.len() == 0 { t } else { s };
        lemma_digest_injective(Seq::empty(), fold_digests(u.drop_last()) + u.last());
        assert((fold_digests(u.drop_last()) + u.last()).len() > 0);
    } else {
        let fs = fold_digests(s.drop_last());
        let ft = fold_digests(t.drop_last());
        lemma_digest_injective(fs + s.last(), ft + t.last());
        assert(fs.len() == 64) by {
            if s.len() == 1 {
                lemma_digest_len(Seq::empty());
            } else {
                let p = s.drop_last();
                lemma_digest_len(fold_digests(p.drop_last()) + p.last());
            }
        }
        assert(ft.len() == 64) by {
            if t.len() == 1 {
                lemma_digest_len(Seq::empty());
            } else {
                let p = t.drop_last();
                lemma_digest_len(fold_digests(p.drop_last()) + p.last());
            }
        }
        assert((fs + s.last()).subrange(0, 64) =~= fs);
        assert((ft + t.last()).subrange(0, 64) =~= ft);
        assert((fs + s.last()).subrange(64, 128) =~= s.last());
        assert((ft + t.last()).subrange(64, 128) =~= t.last());
        lemma_fold_injective(s.drop_last(), t.drop_last());
        assert(s =~= s.drop_last().push(s.last()));
        assert(t =~= t.drop_last().push(t.last()));
    }
}

/// Different files have different digests.
proof fn lemma_file_digest_injective(f: FileSpec, g: FileSpec)
    requires
        collision_free(),
        file_digest_of(f.0, f.1, f.2) == file_digest_of(g.0, g.1, g.2),
    ensures
        f == g,
{
    let xf = extend_spec(digest_of(f.0), digest_of(f.1));
    let xg = extend_spec(digest_of(g.0), digest_of(g.1));
    let mf: Seq<u8> = if f.2 { seq![43u8, 120u8] } else { seq![45u8, 120u8] };
    let mg: Seq<u8> = if g.2 { seq![43u8, 120u8] } else { seq![45u8, 120u8] };
    lemma_digest_injective(xf + mf, xg + mg);
    lemma_digest_len(digest_of(f.0) + digest_of(f.1));
    lemma_digest_len(digest_of(g.0) + digest_of(g.1));
    assert((xf + mf).subrange(0, 64) =~= xf);
    assert((xg + mg).subrange(0, 64) =~= xg);
    assert((xf + mf)[64] == mf[0]);
    assert((xg + mg)[64] == mg[0]);
    lemma_digest_injective(digest_of(f.0) + digest_of(f.1), digest_of(g.0) + digest_of(g.1));
    lemma_digest_len(f.0);
    lemma_digest_len(g.0);
    let yf = digest_of(f.0) + digest_of(f.1);
    let yg = digest_of(g.0) + digest_of(g.1);
    assert(yf.subrange(0, 64) =~= digest_of(f.0));
    assert(yg.subrange(0, 64) =~= digest_of(g.0));
    assert(yf.subrange(64, yf.len() as int) =~= digest_of(f.1));
    assert(yg.subrange(64, yg.len() as int) =~= digest_of(g.1));
    lemma_digest_injective(f.0, g.0);
    lemma_digest_injective(f.1, g.1);
}

/// The first index of a sorted `t` whose element comes after `x`, from `k` on.
spec fn insert_pos(t: Seq<Seq<u8>>, x: Seq<u8>, k: int) -> int
    decreases t.len() - k,
{
    if k >= t.len() {
        t.len() as int
    } else if !lex_le(t[k], x) {
        k
    } else {
        insert_pos(t, x, k + 1)
    }
}

proof fn lemma_insert_pos(t: Seq<Seq<u8>>, x: Seq<u8>, k: int)
    requires
        0 <= k <= t.len(),
        forall|j: int| 0 <= j < k ==> lex_le(#[trigger] t[j], x),
    ensures
        k <= insert_pos(t, x, k) <= t.len(),
        forall|j: int| 0 <= j < insert_pos(t, x, k) ==> lex_le(#[trigger] t[j], x),
        insert_pos(t, x, k) < t.len() ==> !lex_le(t[insert_pos(t, x, k)], x),
    decreases t.len() - k,
{
    if k < t.len() && lex_le(t[k], x) {
        lemma_insert_pos(t, x, k + 1);
    }
}

/// Every sequence of digests has a sorted arrangement.
proof fn lemma_sorted_exists(s: Seq<Seq<u8>>)
    ensures
        is_sorted(sorted_of(s.to_multiset())),
        sorted_of(s.to_multiset()).to_multiset() == s.to_multiset(),
    decreases s.len(),
{
    if s.len() == 0 {
        let e = Seq::<Seq<u8>>::empty();
        assert(e.to_multiset() =~= s.to_multiset()) by {
            assert(s =~= e);
        }
        assert(is_sorted(e));
    } else {
        let rest = s.drop_last();
        let x = s.last();
        lemma_sorted_exists(rest);
        let t = sorted_of(rest.to_multiset());
        lemma_insert_pos(t, x, 0);
        let p = insert_pos(t, x, 0);
        let u = t.insert(p, x);
        assert(s =~= rest.push(x));
        assert(u.to_multiset() == t.to_multiset().insert(x));
        assert forall|i: int, j: int| 0 <= i < j < u.len() implies lex_le(
            #[trigger] u[i],
            #[trigger] u[j],
        ) by {
            if j < p {
                assert(u[i] == t[i] && u[j] == t[j]);
            } else if j == p {
                assert(u[i] == t[i]);
            } else if i == p {
                lemma_lex_total(t[p], x);
                if j - 1 != p {
                    assert(lex_le(t[p], t[j - 1]));
                    lemma_lex_transitive(x, t[p], t[j - 1]);
                }
            } else if i < p {
                assert(lex_le(t[i], t[j - 1]));
            } else {
                assert(lex_le(t[i - 1], t[j - 1]));
            }
        }
        assert(is_sorted(u) && u.to_multiset() == s.to_multiset());
    }
}

/// Equal multisets of file digests come from equal multisets of files.
proof fn lemma_digests_determine_files(a: Seq<FileSpec>, b: Seq<FileSpec>)
    requires
        collision_free(),
        file_digests(a).to_multiset() == file_digests(b).to_multiset(),
    ensures
        a.to_multiset() == b.to_multiset(),
    decreases a.len(),
{
    broadcast use vstd::multiset::group_multiset_axioms;

    let da = file_digests(a);
    let db = file_digests(b);
    assert(da.len() == da.to_multiset().len());
    assert(db.len() == db.to_multiset().len());
    if a.len() == 0 {
        assert(a =~= b);
    } else {
        let x = a.last();
        let fx = da.last();
        assert(da.to_multiset().count(fx) > 0);
        assert(db.contains(fx));
        let j = choose|j: int| 0 <= j < db.len() && db[j] == fx;
        lemma_file_digest_injective(x, b[j]);
        let a1 = a.drop_last();
        let b1 = b.remove(j);
        assert(file_digests(a1) =~= da.drop_last());
        assert(file_digests(b1) =~= db.remove(j));
        assert(da =~= da.drop_last().push(fx));
        assert(da.drop_last().to_multiset() =~= da.to_multiset().remove(fx));
        assert(db.remove(j).to_multiset() == db.to_multiset().remove(fx));
        lemma_digests_determine_files(a1, b1);
        assert(a =~= a1.push(x));
        assert(b1.to_multiset() == b.to_multiset().remove(x));
        assert(b.to_multiset().count(x) > 0);
        assert(b.to_multiset().remove(x).insert(x) =~= b.to_multiset());
    }
}

/// Two sets of files with the same fingerprint hold the same files, unless
/// SHA-256 has a collision: short of one, changing one file's content,
/// executable bit or relative path, or adding or removing a file, changes the
/// fingerprint.
pub proof fn lemma_fingerprint_determines_files(a: Seq<FileSpec>, b: Seq<FileSpec>)
    requires
        fixed_width(),
        fingerprint_of(a) == fingerprint_of(b),
    ensures
        a.to_multiset() == b.to_multiset() || exists|x: Seq<u8>, y: Seq<u8>|
            sha256_collision(x, y),
{
    if !exists|x: Seq<u8>, y: Seq<u8>| sha256_collision(x, y) {
        assert forall|x: Seq<u8>, y: Seq<u8>| #[trigger] sha256_of(x) == #[trigger] sha256_of(
            y,
        ) implies x == y by {
            assert(!sha256_collision(x, y));
        }
        lemma_same_fingerprint_same_files(a, b);
    }
}

proof fn lemma_same_fingerprint_same_files(a: Seq<FileSpec>, b: Seq<FileSpec>)
    requires
        collision_free(),
        fingerprint_of(a) == fingerprint_of(b),
    ensures
        a.to_multiset() == b.to_multiset(),
{
    let ma = file_digests(a).to_multiset();
    let mb = file_digests(b).to_multiset();
    lemma_sorted_exists(file_digests(a));
    lemma_sorted_exists(file_digests(b));
    let sa = sorted_of(ma);
    let sb = sorted_of(mb);
    assert forall|i: int| 0 <= i < sa.len() implies (#[trigger] sa[i]).len() == 64 by {
        assert(sa.to_multiset().count(sa[i]) > 0);
        assert(file_digests(a).contains(sa[i]));
        let k = choose|k: int| 0 <= k < a.len() && file_digests(a)[k] == sa[i];
        lemma_digest_len(
            extend_spec(digest_of(a[k].0), digest_of(a[k].1)) + (if a[k].2 {
                seq![43u8, 120u8]
            } else {
                seq![45u8, 120u8]
            }),
        );
    }
    assert forall|i: int| 0 <= i < sb.len() implies (#[trigger] sb[i]).len() == 64 by {
        assert(sb.to_multiset().count(sb[i]) > 0);
        assert(file_digests(b).contains(sb[i]));
        let k = choose|k: int| 0 <= k < b.len() && file_digests(b)[k] == sb[i];
        lemma_digest_len(
            extend_spec(digest_of(b[k].0), digest_of(b[k].1)) + (if b[k].2 {
                seq![43u8, 120u8]
            } else {
                seq![45u8, 120u8]
            }),
        );
    }
    lemma_fold_injective(sa, sb);
    lemma_digests_determine_files(a, b);
}

} // verus!
