//! What the archive and the fingerprint do not depend on.
use crate::fingerprint::{fingerprint_of, lemma_map_keeps_multiset, FileSpec};
use crate::packer::{archive_body, archive_of};
use crate::paths::{destination_of, SEPARATOR};
use vstd::prelude::*;

verus! {

/// The fingerprint does not depend on the order in which files were found:
/// two traversals that find the same files give the same fingerprint.
pub proof fn lemma_fingerprint_order_independent(a: Seq<FileSpec>, b: Seq<FileSpec>)
    requires
        a.to_multiset() == b.to_multiset(),
    ensures
        fingerprint_of(a) == fingerprint_of(b),
{
    lemma_map_keeps_multiset(a, b);
}

/// A destination root written with one leading separator places every file
/// under the same archive path as the root written without it.
pub proof fn lemma_destination_leading_separator(root: Seq<u8>, path: Seq<u8>)
    requires
        root.len() == 0 || root[0] != SEPARATOR,
    ensures
        destination_of(seq![SEPARATOR] + root, path) == destination_of(root, path),
{
    let rooted = seq![SEPARATOR] + root;
    if !(path.len() > 0 && path[0] == SEPARATOR) {
        if root.len() == 0 {
            assert(rooted + path =~= seq![SEPARATOR] + path);
            assert((seq![SEPARATOR] + path).drop_first() =~= path);
        } else {
            assert(rooted.last() == root.last());
            if root.last() == SEPARATOR {
                assert((rooted + path).drop_first() =~= root + path);
            } else {
                assert((rooted + seq![SEPARATOR] + path).drop_first() =~= root + seq![SEPARATOR]
                    + path);
            }
        }
    }
}

/// A destination root written with or without one leading separator gives
/// byte-identical archives; the fingerprint does not involve the destination
/// root at all.
pub proof fn lemma_archive_leading_separator(root: Seq<u8>, files: Seq<FileSpec>)
    requires
        root.len() == 0 || root[0] != SEPARATOR,
    ensures
        archive_of(seq![SEPARATOR] + root, files) == archive_of(root, files),
{
    lemma_body_leading_separator(root, files);
}

proof fn lemma_body_leading_separator(root: Seq<u8>, files: Seq<FileSpec>)
    requires
        root.len() == 0 || root[0] != SEPARATOR,
    ensures
        archive_body(seq![SEPARATOR] + root, files) == archive_body(root, files),
    decreases files.len(),
{
    if files.len() > 0 {
        lemma_body_leading_separator(root, files.drop_last());
        lemma_destination_leading_separator(root, files.last().0);
    }
}

} // verus!
