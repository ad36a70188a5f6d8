//! Path resolution on byte strings: destination paths inside the archive, and
//! paths made relative to the source root.
use vstd::prelude::*;

verus! {

/// The path separator, `/`.
pub const SEPARATOR: u8 = 47;

/// `base` joined with `path`: an absolute `path` replaces `base`, and one
/// separator is put between the two where `base` does not already end in one.
pub open spec fn join(base: Seq<u8>, path: Seq<u8>) -> Seq<u8> {
    if path.len() > 0 && path[0] == SEPARATOR {
        path
    } else if base.len() == 0 {
        path
    } else if base.last() == SEPARATOR {
        base + path
    } else {
        base + seq![SEPARATOR] + path
    }
}

/// The path under which `path` is stored in the archive: the destination root
/// joined with it, without one leading separator, so that it is relative.
pub open spec fn destination_of(root: Seq<u8>, path: Seq<u8>) -> Seq<u8> {
    let joined = join(root, path);
    if joined.len() > 0 && joined[0] == SEPARATOR {
        joined.drop_first()
    } else {
        joined
    }
}

/// `entry` relative to `root`, where `root` is a leading run of whole path
/// components of `entry`.
pub open spec fn relative_to(entry: Seq<u8>, root: Seq<u8>) -> Option<Seq<u8>> {
    if entry.len() >= root.len() && entry.take(root.len() as int) == root {
        let rest = entry.skip(root.len() as int);
        if rest.len() == 0 {
            Some(rest)
        } else if rest[0] == SEPARATOR {
            Some(rest.drop_first())
        } else if root.len() > 0 && root.last() == SEPARATOR {
            Some(rest)
        } else {
            None
        }
    } else {
        None
    }
}

/// The bytes of `s` from index `from` on.
pub fn copy_from(s: &[u8], from: usize) -> (r: Vec<u8>)
    requires
        from <= s@.len(),
    ensures
        r@ == s@.skip(from as int),
{
    let mut r: Vec<u8> = Vec::new();
    let mut i: usize = from;
    while i < s.len()
        invariant
            from <= i <= s@.len(),
            r@ == s@.subrange(from as int, i as int),
        decreases s@.len() - i,
    {
        r.push(s[i]);
        assert(s@.subrange(from as int, i as int + 1) =~= s@.subrange(from as int, i as int).push(
            s@[i as int],
        ));
        i = i + 1;
    }
    assert(s@.subrange(from as int, s@.len() as int) =~= s@.skip(from as int));
    r
}

/// Appends the bytes of `s` to `v`.
fn append_bytes(v: &mut Vec<u8>, s: &[u8])
    ensures
        final(v)@ == old(v)@ + s@,
{
    let mut i: usize = 0;
    while i < s.len()
        invariant
            i <= s@.len(),
            v@ == old(v)@ + s@.take(i as int),
        decreases s@.len() - i,
    {
        v.push(s[i]);
        assert(s@.take(i as int + 1) =~= s@.take(i as int).push(s@[i as int]));
        i = i + 1;
    }
    assert(s@.take(s@.len() as int) =~= s@);
}

/// The archive path of `path` under the destination root `root`.
pub fn destination_path(root: &[u8], path: &[u8]) -> (r: Vec<u8>)
    ensures
        r@ == destination_of(root@, path@),
{
    let mut joined: Vec<u8> = Vec::new();
    if !(path.len() > 0 && path[0] == SEPARATOR) && root.len() > 0 {
        append_bytes(&mut joined, root);
        if root[root.len() - 1] != SEPARATOR {
            joined.push(SEPARATOR);
        }
    }
    append_bytes(&mut joined, path);
    assert(joined@ =~= join(root@, path@));
    if joined.len() > 0 && joined[0] == SEPARATOR {
        copy_from(joined.as_slice(), 1)
    } else {
        joined
    }
}

/// Whether `root` is a prefix of `entry`.
fn starts_with(entry: &[u8], root: &[u8]) -> (r: bool)
    ensures
        r == (entry@.len() >= root@.len() && entry@.take(root@.len() as int) == root@),
{
    if entry.len() < root.len() {
        return false;
    }
    let mut i: usize = 0;
    while i < root.len()
        invariant
            i <= root@.len() <= entry@.len(),
            entry@.take(i as int) == root@.take(i as int),
        decreases root@.len() - i,
    {
        if entry[i] != root[i] {
            assert(entry@.take(root@.len() as int)[i as int] != root@[i as int]);
            return false;
        }
        assert(entry@.take(i as int + 1) =~= entry@.take(i as int).push(entry@[i as int]));
        assert(root@.take(i as int + 1) =~= root@.take(i as int).push(root@[i as int]));
        i = i + 1;
    }
    assert(root@.take(root@.len() as int) =~= root@);
    true
}

/// `entry` made relative to `root`, or `None` where `root` is not a leading run
/// of whole components of `entry`.
pub fn relative_path(entry: &[u8], root: &[u8]) -> (r: Option<Vec<u8>>)
    ensures
        r matches Some(p) ==> relative_to(entry@, root@) == Some(p@),
        r is None ==> relative_to(entry@, root@) is None,
{
    if !starts_with(entry, root) {
        return None;
    }
    let n = root.len();
    if n == entry.len() {
        return Some(copy_from(entry, n));
    }
    if entry[n] == SEPARATOR {
        assert(entry@.skip(n as int).drop_first() =~= entry@.skip(n as int + 1));
        Some(copy_from(entry, n + 1))
    } else if n > 0 && root[n - 1] == SEPARATOR {
        Some(copy_from(entry, n))
    } else {
        None
    }
}

} // verus!
