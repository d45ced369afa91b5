//! A small virtual file system: a bounded table of open files, each with
//! the operations of its kind (pipe, memory file, device) behind `FileOps`.

use vstd::prelude::*;

verus! {

/// File descriptor.
pub type Fd = u32;

/// VFS errors.
#[derive(Debug)]
pub enum VfsError {
    NotSupported,
    NotFound,
    PermissionDenied,
    IoError,
}

/// The operations of one open file, implemented by each kind of file.
///
/// A kind of file may say, through `read_spec`, `write_spec` and
/// `close_spec`, which results its operations give (any result, where it
/// says nothing); its operations promise to give only such results.
pub trait FileOps {
    /// `r` is a result that reading into a buffer holding `buf` may give
    /// for this file.
    open spec fn read_spec(&self, buf: Seq<u8>, r: Result<usize, VfsError>) -> bool {
        true
    }

    /// `r` is a result that writing `buf` may give for this file.
    open spec fn write_spec(&self, buf: Seq<u8>, r: Result<usize, VfsError>) -> bool {
        true
    }

    /// `r` is a result that closing this file may give.
    open spec fn close_spec(&self, r: Result<(), VfsError>) -> bool {
        true
    }

    /// Reads into `buf`, returning the number of bytes read.
    fn read(&mut self, buf: &mut [u8]) -> (r: Result<usize, VfsError>)
        ensures
            old(self).read_spec(old(buf)@, r),
    ;

    /// Writes `buf`, returning the number of bytes written.
    fn write(&mut self, buf: &[u8]) -> (r: Result<usize, VfsError>)
        ensures
            old(self).write_spec(buf@, r),
    ;

    /// Moves the file position. Not supported unless the file says otherwise.
    fn seek(&mut self, pos: u64) -> (r: Result<u64, VfsError>)
        default_ensures
            r matches Err(VfsError::NotSupported),
    {
        let _ = pos;
        Err(VfsError::NotSupported)
    }

    /// Closes the file.
    fn close(&mut self) -> (r: Result<(), VfsError>)
        ensures
            old(self).close_spec(r),
    ;
}

/// File type.
pub enum FileType {
    Regular,
    Directory,
    Device,
    Pipe,
}

/// An open file.
pub struct OpenFile {
    pub fd: Fd,
    pub file_type: FileType,
    pub pos: u64,
    pub ops: Box<dyn FileOps>,
}

/// Capacity of the open-file table.
pub const MAX_OPEN_FILES: usize = 64;

/// The open files held, in order, by an open-file table.
pub uninterp spec fn open_files(v: heapless::Vec<OpenFile, 64>) -> Seq<OpenFile>;

/// `after` is `before` with `f` appended.
pub open spec fn appended(before: Seq<OpenFile>, after: Seq<OpenFile>, f: OpenFile) -> bool {
    &&& after.len() == before.len() + 1
    &&& after.last() == f
    &&& forall|i: int| 0 <= i < before.len() ==> #[trigger] after[i] == before[i]
}

/// `heapless::Vec::new`: an empty vector.
#[verifier::external_body]
fn files_new() -> (r: heapless::Vec<OpenFile, 64>)
    ensures
        open_files(r) == Seq::<OpenFile>::empty(),
{
    heapless::Vec::new()
}

/// `heapless::Vec::push`: appends where fewer than 64 items are held
/// (`true`), else keeps the vector (`false`; the item comes back in `Err`
/// and is dropped).
#[verifier::external_body]
fn files_push(v: &mut heapless::Vec<OpenFile, 64>, f: OpenFile) -> (pushed: bool)
    ensures
        open_files(*old(v)).len() < 64 ==> pushed && appended(open_files(*old(v)), open_files(*final(v)), f),
        open_files(*old(v)).len() >= 64 ==> !pushed && open_files(*final(v)) == open_files(*old(v)),
{
    v.push(f).is_ok()
}

/// The length of a `heapless::Vec` (through its slice).
#[verifier::external_body]
fn files_len(v: &heapless::Vec<OpenFile, 64>) -> (n: usize)
    ensures
        n == open_files(*v).len(),
{
    v.len()
}

/// Indexing a `heapless::Vec` for change (through its slice): the item at `i`.
/// (Indexing panics past the end, which `requires` leaves out.)
#[verifier::external_body]
fn files_at_mut(v: &mut heapless::Vec<OpenFile, 64>, i: usize) -> (f: &mut OpenFile)
    requires
        i < open_files(*old(v)).len(),
    ensures
        *f == open_files(*old(v))[i as int],
        open_files(*final(v)) == open_files(*old(v)).update(i as int, *final(f)),
{
    &mut v[i]
}

/// Indexing a `heapless::Vec` (through its slice): the item at `i`.
/// (Indexing panics past the end, which `requires` leaves out.)
#[verifier::external_body]
fn files_at(v: &heapless::Vec<OpenFile, 64>, i: usize) -> (f: &OpenFile)
    requires
        i < open_files(*v).len(),
    ensures
        *f == open_files(*v)[i as int],
{
    &v[i]
}

/// `heapless::Vec::remove`: takes out the item at `i` and shifts the rest
/// down. (It panics past the end, which `requires` leaves out.)
#[verifier::external_body]
fn files_remove(v: &mut heapless::Vec<OpenFile, 64>, i: usize) -> (f: OpenFile)
    requires
        i < open_files(*old(v)).len(),
    ensures
        f == open_files(*old(v))[i as int],
        open_files(*final(v)) == open_files(*old(v)).remove(i as int),
{
    v.remove(i)
}

/// `i` is the first position of an open file with descriptor `fd`.
pub open spec fn is_first_fd(s: Seq<OpenFile>, fd: Fd, i: int) -> bool {
    &&& 0 <= i < s.len()
    &&& s[i].fd == fd
    &&& forall|j: int| 0 <= j < i ==> (#[trigger] s[j]).fd != fd
}

/// The first position of an open file with descriptor `fd`, if any.
pub open spec fn fd_index(s: Seq<OpenFile>, fd: Fd) -> Option<int> {
    if exists|i: int| is_first_fd(s, fd, i) {
        Some(choose|i: int| is_first_fd(s, fd, i))
    } else {
        None
    }
}

proof fn lemma_fd_index(s: Seq<OpenFile>, fd: Fd, i: int)
    requires
        is_first_fd(s, fd, i),
    ensures
        fd_index(s, fd) == Some(i),
{
    let k = choose|k: int| is_first_fd(s, fd, k);
    assert(is_first_fd(s, fd, k));
    if k < i {
        assert(s[k].fd != fd);
    } else if i < k {
        assert(s[i].fd != fd);
    }
}

/// `after` is `before` with the file at `i` handed to its own operations:
/// same length, every other file unchanged, and that file keeps its
/// descriptor, type and position.
pub open spec fn ops_used(before: Seq<OpenFile>, after: Seq<OpenFile>, i: int) -> bool {
    &&& after.len() == before.len()
    &&& forall|j: int| 0 <= j < before.len() && j != i ==> #[trigger] after[j] == before[j]
    &&& after[i].fd == before[i].fd
    &&& after[i].file_type == before[i].file_type
    &&& after[i].pos == before[i].pos
}

/// The virtual file system.
pub struct Vfs {
    /// Open-file table.
    files: heapless::Vec<OpenFile, 64>,
    /// The next descriptor.
    next_fd: Fd,
}

impl Vfs {
    /// The open files, in registration order.
    pub closed spec fn files(self) -> Seq<OpenFile> {
        open_files(self.files)
    }

    /// The next descriptor to hand out.
    pub closed spec fn next_fd(self) -> Fd {
        self.next_fd
    }

    /// The descriptors in the table increase along it and stay below the
    /// next one to hand out, so no two open files share a descriptor.
    pub open spec fn wf(self) -> bool {
        &&& forall|i: int, j: int| 0 <= i < j < self.files().len() ==> (#[trigger] self.files()[i]).fd < (#[trigger] self.files()[j]).fd
        &&& forall|i: int| 0 <= i < self.files().len() ==> (#[trigger] self.files()[i]).fd < self.next_fd()
    }

    /// No file open; descriptors start at 0.
    pub fn new() -> (r: Self)
        ensures
            r.wf(),
            r.files() == Seq::<OpenFile>::empty(),
            r.next_fd() == 0,
    {
        Vfs { files: files_new(), next_fd: 0 }
    }

    /// The descriptor that the next `register` hands out.
    pub fn next_descriptor(&self) -> (r: Fd)
        ensures
            r == self.next_fd(),
    {
        self.next_fd
    }

    /// Registers a file with its operations: it gets the next descriptor,
    /// which is returned and advanced by one. The file is appended, at
    /// position 0, where the table has room; where it is full (64 files), the
    /// file is dropped, though its descriptor is still returned.
    pub fn register(&mut self, file_type: FileType, ops: Box<dyn FileOps>) -> (r: Fd)
        requires
            old(self).next_fd() < u32::MAX,
        ensures
            old(self).wf() ==> final(self).wf(),
            r == old(self).next_fd(),
            final(self).next_fd() == old(self).next_fd() + 1,
            old(self).files().len() < MAX_OPEN_FILES ==> {
                &&& final(self).files().len() == old(self).files().len() + 1
                &&& forall|i: int| 0 <= i < old(self).files().len() ==> #[trigger] final(self).files()[i] == old(self).files()[i]
                &&& final(self).files().last() == (OpenFile { fd: r, file_type, pos: 0, ops })
            },
            old(self).files().len() >= MAX_OPEN_FILES ==> final(self).files() == old(self).files(),
    {
        let fd = self.next_fd;
        self.next_fd += 1;
        let _ = files_push(&mut self.files, OpenFile { fd, file_type, pos: 0, ops });
        fd
    }

    /// Reads from the first open file with descriptor `fd` through its own
    /// operations; `NotFound` where none is open.
    pub fn read(&mut self, fd: Fd, buf: &mut [u8]) -> (r: Result<usize, VfsError>)
        ensures
            old(self).wf() ==> final(self).wf(),
            final(self).next_fd() == old(self).next_fd(),
            fd_index(old(self).files(), fd) is None ==> r is Err && r->Err_0 is NotFound
                && final(self).files() == old(self).files(),
            fd_index(old(self).files(), fd) matches Some(i) ==> ops_used(old(self).files(), final(self).files(), i),
            fd_index(old(self).files(), fd) matches Some(i) ==> old(self).files()[i].ops.read_spec(old(buf)@, r),
    {
        let n = files_len(&self.files);
        let mut i: usize = 0;
        while i < n
            invariant
                n == open_files(self.files).len(),
                i <= n,
                buf@ == old(buf)@,
                self.next_fd == old(self).next_fd,
                open_files(self.files) == open_files(old(self).files),
                forall|j: int| 0 <= j < i ==> (#[trigger] open_files(self.files)[j]).fd != fd,
            decreases n - i,
        {
            if files_at(&self.files, i).fd == fd {
                proof { lemma_fd_index(open_files(self.files), fd, i as int); }
                let f = files_at_mut(&mut self.files, i);
                return f.ops.read(buf);
            }
            i = i + 1;
        }
        Err(VfsError::NotFound)
    }

    /// Writes to the first open file with descriptor `fd` through its own
    /// operations; `NotFound` where none is open.
    pub fn write(&mut self, fd: Fd, buf: &[u8]) -> (r: Result<usize, VfsError>)
        ensures
            old(self).wf() ==> final(self).wf(),
            final(self).next_fd() == old(self).next_fd(),
            fd_index(old(self).files(), fd) is None ==> r is Err && r->Err_0 is NotFound
                && final(self).files() == old(self).files(),
            fd_index(old(self).files(), fd) matches Some(i) ==> ops_used(old(self).files(), final(self).files(), i),
            fd_index(old(self).files(), fd) matches Some(i) ==> old(self).files()[i].ops.write_spec(buf@, r),
    {
        let n = files_len(&self.files);
        let mut i: usize = 0;
        while i < n
            invariant
                n == open_files(self.files).len(),
                i <= n,
                self.next_fd == old(self).next_fd,
                open_files(self.files) == open_files(old(self).files),
                forall|j: int| 0 <= j < i ==> (#[trigger] open_files(self.files)[j]).fd != fd,
            decreases n - i,
        {
            if files_at(&self.files, i).fd == fd {
                proof { lemma_fd_index(open_files(self.files), fd, i as int); }
                let f = files_at_mut(&mut self.files, i);
                return f.ops.write(buf);
            }
            i = i + 1;
        }
        Err(VfsError::NotFound)
    }

    /// Closes the first open file with descriptor `fd`: it leaves the table
    /// and its own `close` gives the result; `NotFound` where none is open.
    pub fn close(&mut self, fd: Fd) -> (r: Result<(), VfsError>)
        ensures
            old(self).wf() ==> final(self).wf(),
            final(self).next_fd() == old(self).next_fd(),
            fd_index(old(self).files(), fd) is None ==> r is Err && r->Err_0 is NotFound
                && final(self).files() == old(self).files(),
            fd_index(old(self).files(), fd) matches Some(i) ==> final(self).files() == old(self).files().remove(i),
            fd_index(old(self).files(), fd) matches Some(i) ==> old(self).files()[i].ops.close_spec(r),
    {
        let n = files_len(&self.files);
        let mut i: usize = 0;
        while i < n
            invariant
                n == open_files(self.files).len(),
                i <= n,
                self.next_fd == old(self).next_fd,
                open_files(self.files) == open_files(old(self).files),
                forall|j: int| 0 <= j < i ==> (#[trigger] open_files(self.files)[j]).fd != fd,
            decreases n - i,
        {
            if files_at(&self.files, i).fd == fd {
                proof { lemma_fd_index(open_files(self.files), fd, i as int); }
                let mut file = files_remove(&mut self.files, i);
                return file.ops.close();
            }
            i = i + 1;
        }
        Err(VfsError::NotFound)
    }
}

/// In a well-formed table, a newly registered file (appended with the next
/// descriptor) is the one its descriptor finds, so later reads, writes and
/// closes with that descriptor go to its own operations.
pub proof fn law_registered_file_is_found(before: Vfs, after: Vfs)
    requires
        before.wf(),
        after.files().len() == before.files().len() + 1,
        forall|i: int| 0 <= i < before.files().len() ==> #[trigger] after.files()[i] == before.files()[i],
        after.files().last().fd == before.next_fd(),
    ensures
        fd_index(after.files(), before.next_fd()) == Some(before.files().len() as int),
{
    let n = before.files().len() as int;
    assert forall|j: int| 0 <= j < n implies (#[trigger] after.files()[j]).fd != before.next_fd() by {
        assert(after.files()[j] == before.files()[j]);
    }
    lemma_fd_index(after.files(), before.next_fd(), n);
}

/// In a well-formed table, once the file of a descriptor is closed (taken
/// out of the table), the descriptor finds nothing.
pub proof fn law_closed_file_is_gone(before: Vfs, after_files: Seq<OpenFile>, fd: Fd)
    requires
        before.wf(),
        fd_index(before.files(), fd) is Some,
        after_files == before.files().remove(fd_index(before.files(), fd)->0),
    ensures
        fd_index(after_files, fd) is None,
{
    let s = before.files();
    let i = choose|i: int| is_first_fd(s, fd, i);
    assert(is_first_fd(s, fd, i));
    assert forall|j: int| 0 <= j < after_files.len() implies (#[trigger] after_files[j]).fd != fd by {
        if j < i {
            assert(after_files[j] == s[j]);
        } else {
            assert(after_files[j] == s[j + 1]);
            assert(s[i].fd < s[j + 1].fd);
        }
    }
}

/// In a well-formed table no open file has a descriptor not yet handed out,
/// so a descriptor whose file was dropped from a full table finds nothing.
pub proof fn law_unissued_descriptor_not_found(v: Vfs, fd: Fd)
    requires
        v.wf(),
        fd >= v.next_fd(),
    ensures
        fd_index(v.files(), fd) is None,
{
    if exists|i: int| is_first_fd(v.files(), fd, i) {
        let i = choose|i: int| is_first_fd(v.files(), fd, i);
        assert(v.files()[i].fd < v.next_fd());
    }
}

} // verus!
