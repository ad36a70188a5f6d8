//! One archive-and-fingerprint operation: files are added one at a time, the
//! cancellation flag is polled between them, and the archive and fingerprint
//! are handed out together at the end.
use crate::archive::{
    archive_finished,
    archive_written,
    append_member,
    disable_symlink_following,
    end_of_archive,
    into_bytes,
    member_accepted,
    member_bytes,
    new_archive,
    plain_member_path,
    TarSink,
};
use crate::fingerprint::{aggregate, file_digest, file_digests, fingerprint_of, FileSpec};
use crate::order::views;
use crate::paths::{copy_from, destination_of, destination_path, relative_path, relative_to};
use vstd::prelude::*;

verus! {

/// Archive mode of an executable file.
pub const EXECUTABLE_MODE: u32 = 0o777;

/// Archive mode of any other file.
pub const REGULAR_MODE: u32 = 0o666;

/// Why an operation stopped.
#[derive(Debug)]
pub enum TarError {
    /// The cancellation flag was observed set.
    Interrupted,
    /// A discovered file does not lie under the source root.
    Relativize { entry: Vec<u8>, root: Vec<u8> },
    /// The archive rejected a member.
    Append(std::io::Error),
    /// The archive could not be completed.
    Finalize(std::io::Error),
}

/// Whether any of the owner, group or other execute bits is set in `mode`.
pub open spec fn executable_mode(mode: u32) -> bool {
    mode & 0o100 != 0 || mode & 0o10 != 0 || mode & 0o1 != 0
}

/// The mode written into the archive for a file.
pub open spec fn archive_mode(executable: bool) -> u32 {
    if executable {
        EXECUTABLE_MODE
    } else {
        REGULAR_MODE
    }
}

/// The members for the first files, stored under the destination root.
pub open spec fn archive_body(root: Seq<u8>, files: Seq<FileSpec>) -> Seq<u8>
    decreases files.len(),
{
    if files.len() == 0 {
        Seq::empty()
    } else {
        let f = files.last();
        archive_body(root, files.drop_last()) + member_bytes(
            destination_of(root, f.0),
            archive_mode(f.2),
            f.1,
        )
    }
}

/// The complete archive of `files`, in the order they were added.
pub open spec fn archive_of(root: Seq<u8>, files: Seq<FileSpec>) -> Seq<u8> {
    archive_body(root, files) + end_of_archive()
}

/// Whether a file with permission bits `mode` is archived as executable.
pub fn is_executable(mode: u32) -> (r: bool)
    ensures
        r == executable_mode(mode),
{
    mode & 0o100 != 0 || mode & 0o10 != 0 || mode & 0o1 != 0
}

/// An archive being built, with the digests of the files added so far.
pub struct Packer {
    sink: TarSink,
    destination: Vec<u8>,
    digests: Vec<Vec<u8>>,
    interrupted: bool,
    files: Ghost<Seq<FileSpec>>,
}

impl Packer {
    /// The files added so far, in order.
    pub closed spec fn files(&self) -> Seq<FileSpec> {
        self.files@
    }

    /// The destination root that archive paths are placed under.
    pub closed spec fn destination(&self) -> Seq<u8> {
        self.destination@
    }

    /// Whether the cancellation flag has been observed set.
    pub closed spec fn interrupted(&self) -> bool {
        self.interrupted
    }

    /// The archive holds exactly the members of the files added, and one
    /// digest is kept per file.
    pub closed spec fn wf(&self) -> bool {
        &&& !archive_finished(self.sink)
        &&& archive_written(self.sink) == archive_body(self.destination@, self.files@)
        &&& views(self.digests@) == file_digests(self.files@)
    }

    /// Starts an empty archive whose paths are placed under `destination_dir`.
    pub fn new(destination_dir: &[u8]) -> (r: Packer)
        ensures
            r.wf(),
            r.files() == Seq::<FileSpec>::empty(),
            r.destination() == destination_dir@,
            !r.interrupted(),
    {
        let mut sink = new_archive();
        disable_symlink_following(&mut sink);
        let r = Packer {
            sink,
            destination: copy_from(destination_dir, 0),
            digests: Vec::new(),
            interrupted: false,
            files: Ghost(Seq::empty()),
        };
        assert(destination_dir@.skip(0) =~= destination_dir@);
        assert(views(r.digests@) =~= file_digests(r.files@));
        r
    }

    /// Polls the cancellation flag. Once it has been seen set, this and every
    /// later step fails with `Interrupted`.
    pub fn check_interrupt(&mut self, cancelled: bool) -> (r: Result<(), TarError>)
        ensures
            final(self).interrupted() == (old(self).interrupted() || cancelled),
            final(self).files() == old(self).files(),
            final(self).destination() == old(self).destination(),
            old(self).wf() ==> final(self).wf(),
            r is Ok <==> !final(self).interrupted(),
            r is Err ==> r matches Err(TarError::Interrupted),
    {
        if cancelled {
            self.interrupted = true;
        }
        if self.interrupted {
            Err(TarError::Interrupted)
        } else {
            Ok(())
        }
    }

    /// Adds one file, given its path relative to the source root, its content
    /// and its permission bits: its member is appended to the archive and its
    /// digest recorded.
    pub fn add_file(&mut self, path: &[u8], content: &[u8], mode: u32) -> (r: Result<(), TarError>)
        requires
            old(self).wf(),
        ensures
            final(self).interrupted() == old(self).interrupted(),
            final(self).destination() == old(self).destination(),
            old(self).interrupted() ==> (r matches Err(TarError::Interrupted)),
            old(self).interrupted() ==> *final(self) == *old(self),
            !old(self).interrupted() ==> (r is Ok <==> member_accepted(
                destination_of(old(self).destination(), path@),
            )),
            !old(self).interrupted() && plain_member_path(
                destination_of(old(self).destination(), path@),
            ) ==> r is Ok,
            !old(self).interrupted() && r is Err ==> r matches Err(TarError::Append(_)),
            r is Err ==> final(self).wf() && final(self).files() == old(self).files(),
            r is Ok ==> final(self).wf() && final(self).files() == old(self).files().push(
                (path@, content@, executable_mode(mode)),
            ),
    {
        if self.interrupted {
            return Err(TarError::Interrupted);
        }
        let executable = is_executable(mode);
        let destination = destination_path(self.destination.as_slice(), path);
        let archived_mode = if executable {
            EXECUTABLE_MODE
        } else {
            REGULAR_MODE
        };
        match append_member(&mut self.sink, destination.as_slice(), archived_mode, content) {
            Ok(()) => {},
            Err(e) => {
                return Err(TarError::Append(e));
            },
        }
        let digest = file_digest(path, content, executable);
        let ghost old_files = self.files@;
        let ghost f: FileSpec = (path@, content@, executable);
        let ghost old_digests = self.digests@;
        self.digests.push(digest);
        self.files = Ghost(old_files.push(f));
        proof {
            assert(self.files@.drop_last() =~= old_files);
            assert(views(self.digests@) =~= views(old_digests).push(digest@));
            assert(file_digests(self.files@) =~= file_digests(old_files).push(digest@));
        }
        Ok(())
    }

    /// Adds a file found while walking a directory: `entry` is its canonical
    /// path, made relative to the canonical source root `root` before it is
    /// added as by `add_file`.
    pub fn add_entry(&mut self, entry: &[u8], root: &[u8], content: &[u8], mode: u32) -> (r: Result<
        (),
        TarError,
    >)
        requires
            old(self).wf(),
        ensures
            final(self).interrupted() == old(self).interrupted(),
            final(self).destination() == old(self).destination(),
            old(self).interrupted() ==> (r matches Err(TarError::Interrupted)),
            old(self).interrupted() ==> *final(self) == *old(self),
            !old(self).interrupted() && relative_to(entry@, root@) is None ==> (r matches Err(
                TarError::Relativize { entry: e, root: p },
            ) && e@ == entry@ && p@ == root@) && *final(self) == *old(self),
            !old(self).interrupted() && relative_to(entry@, root@) is Some ==> (r is Ok
                <==> member_accepted(
                destination_of(old(self).destination(), relative_to(entry@, root@)->Some_0),
            )),
            !old(self).interrupted() && relative_to(entry@, root@) is Some && plain_member_path(
                destination_of(old(self).destination(), relative_to(entry@, root@)->Some_0),
            ) ==> r is Ok,
            !old(self).interrupted() && relative_to(entry@, root@) is Some && r is Err ==> r matches Err(
                TarError::Append(_),
            ),
            r is Err ==> final(self).wf() && final(self).files() == old(self).files(),
            r is Ok ==> relative_to(entry@, root@) is Some && final(self).wf() && final(self).files()
                == old(self).files().push(
                (relative_to(entry@, root@)->Some_0, content@, executable_mode(mode)),
            ),
    {
        if self.interrupted {
            return Err(TarError::Interrupted);
        }
        match relative_path(entry, root) {
            Some(path) => self.add_file(path.as_slice(), content, mode),
            None => Err(
                TarError::Relativize { entry: copy_from(entry, 0), root: copy_from(root, 0) },
            ),
        }
    }

    /// Completes the archive and hands it out with the fingerprint of the files
    /// added: their digests, sorted, folded from the digest of nothing.
    pub fn finish(self) -> (r: Result<(Vec<u8>, Vec<u8>), TarError>)
        requires
            self.wf(),
        ensures
            self.interrupted() ==> r matches Err(TarError::Interrupted),
            !self.interrupted() ==> r is Ok,
            r matches Ok((archive, fingerprint)) ==> !self.interrupted() && archive@ == archive_of(
                self.destination(),
                self.files(),
            ) && fingerprint@ == fingerprint_of(self.files()),
    {
        if self.interrupted {
            return Err(TarError::Interrupted);
        }
        let Packer { sink, digests, .. } = self;
        let fingerprint = aggregate(digests);
        match into_bytes(sink) {
            Ok(archive) => Ok((archive, fingerprint)),
            Err(e) => Err(TarError::Finalize(e)),
        }
    }
}

} // verus!
