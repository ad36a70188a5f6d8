//! The archive writer: a tar stream held in memory, built through `tar::Builder`.
use vstd::prelude::*;

verus! {

/// A tar stream being written into memory. It holds a `tar::Builder`, whose
/// `Write` bound Verus cannot read, so its contents are described by the names
/// below.
#[verifier::external_body]
pub struct TarSink {
    inner: tar::Builder<Vec<u8>>,
}

#[verifier::external_type_specification]
#[verifier::external_body]
pub struct ExIoError(std::io::Error);

/// The bytes that a builder has written to its in-memory sink so far.
pub uninterp spec fn archive_written(b: TarSink) -> Seq<u8>;

/// Whether a builder has already emitted its end-of-archive blocks.
pub uninterp spec fn archive_finished(b: TarSink) -> bool;

/// The bytes of one archive member: the GNU header (preceded by a long-name
/// member where the path does not fit in the header), the content, and zero
/// padding to the next 512-byte block. No timestamp or owner is recorded, so
/// these bytes depend on the path, the mode and the content alone.
pub uninterp spec fn member_bytes(path: Seq<u8>, mode: u32, data: Seq<u8>) -> Seq<u8>;

/// Whether tar's path check accepts `path` as a member name (`Header::set_path`,
/// or the GNU long-name fallback for long paths). It depends on the path alone.
pub uninterp spec fn member_accepted(path: Seq<u8>) -> bool;

/// A path that tar's check plainly accepts: non-empty, under 100 bytes so that
/// it fits the header's name field, relative, ASCII without NUL, and without
/// two dots in a row, so that no component is `..`.
pub open spec fn plain_member_path(path: Seq<u8>) -> bool {
    &&& 0 < path.len() < 100
    &&& path[0] != 47
    &&& forall|i: int| 0 <= i < path.len() ==> 0 < #[trigger] path[i] < 128
    &&& forall|i: int| 0 <= i < path.len() - 1 ==> !(#[trigger] path[i] == 46 && path[i + 1] == 46)
}

/// The 1024 zero bytes that end a tar stream.
pub open spec fn end_of_archive() -> Seq<u8> {
    Seq::new(1024, |i: int| 0u8)
}

/// Relies on `tar::Builder::new`: a builder over an empty `Vec` has written
/// nothing and is not finished.
#[verifier::external_body]
pub(crate) fn new_archive() -> (r: TarSink)
    ensures
        archive_written(r) == Seq::<u8>::empty(),
        !archive_finished(r),
{
    TarSink { inner: tar::Builder::new(Vec::new()) }
}

/// Relies on `tar::Builder::follow_symlinks`: it sets an option used only when
/// members are read from the filesystem, and writes nothing.
#[verifier::external_body]
pub(crate) fn disable_symlink_following(b: &mut TarSink)
    ensures
        archive_written(*final(b)) == archive_written(*old(b)),
        archive_finished(*final(b)) == archive_finished(*old(b)),
{
    b.inner.follow_symlinks(false)
}

/// Relies on `tar::Builder::append_data`, given a fresh `tar::Header::new_gnu`
/// header with only its mode and size set. Writing to a `Vec` never fails, so it
/// fails exactly when the path check refuses the path, and then before writing
/// anything; on success it appends the member's bytes. Whether the builder is
/// finished stays as it was.
#[verifier::external_body]
pub(crate) fn append_member(
    b: &mut TarSink,
    path: &[u8],
    mode: u32,
    data: &[u8],
) -> (r: Result<(), std::io::Error>)
    ensures
        r is Ok <==> member_accepted(path@),
        plain_member_path(path@) ==> r is Ok,
        r is Ok ==> archive_written(*final(b)) == archive_written(*old(b)) + member_bytes(
            path@,
            mode,
            data@,
        ),
        r is Err ==> archive_written(*final(b)) == archive_written(*old(b)),
        archive_finished(*final(b)) == archive_finished(*old(b)),
{
    let mut header = tar::Header::new_gnu();
    header.set_mode(mode);
    header.set_size(data.len() as u64);
    b.inner.append_data(&mut header, &*String::from_utf8_lossy(path), data)
}

/// Relies on `tar::Builder::into_inner`: an unfinished builder writes the
/// end-of-archive blocks and hands back its sink. Writing to a `Vec` never
/// fails, so neither does this.
#[verifier::external_body]
pub(crate) fn into_bytes(b: TarSink) -> (r: Result<Vec<u8>, std::io::Error>)
    ensures
        r is Ok,
        r is Ok && !archive_finished(b) ==> r->Ok_0@ == archive_written(b) + end_of_archive(),
{
    b.inner.into_inner()
}

} // verus!
