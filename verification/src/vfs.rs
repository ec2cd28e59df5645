//! Per-process file descriptor tables over the ramdisk file system.

use vstd::prelude::*;
use vstd::utf8::encode_utf8;
use crate::fat32;
use crate::fat32::{lookup, readable, uppercase_of};

verus! {

/// Maximum open files per process.
pub const MAX_FDS: usize = 16;

/// First descriptor handed out for files (0, 1 and 2 are reserved).
pub const FIRST_FILE_FD: usize = 3;

/// An open file: a private copy of its contents and a position.
pub struct FileDescriptor {
    pub filename: String,
    pub data: Vec<u8>,
    /// Current read/write position.
    pub offset: usize,
    pub writable: bool,
}

/// Per-process file descriptor table.
pub struct FdTable {
    pub fds: Vec<Option<FileDescriptor>>,
}

/// The lowest free descriptor at or above 3, if any.
pub open spec fn first_free_fd(fds: Seq<Option<FileDescriptor>>) -> Option<int> {
    if exists|i: int| FIRST_FILE_FD <= i < MAX_FDS && fds[i] is None {
        Some(
            choose|i: int|
                FIRST_FILE_FD <= i < MAX_FDS && fds[i] is None && forall|j: int|
                    FIRST_FILE_FD <= j < i ==> fds[j] is Some,
        )
    } else {
        None
    }
}

/// The contents of a file after writing `src` at position `off` into `data`:
/// the file grows (zero-filled) to cover the written range.
pub open spec fn written(data: Seq<u8>, off: int, src: Seq<u8>) -> Seq<u8> {
    let len = if off + src.len() > data.len() { off + src.len() } else { data.len() as int };
    Seq::new(
        len as nat,
        |k: int|
            if off <= k < off + src.len() {
                src[k - off]
            } else if k < data.len() {
                data[k]
            } else {
                0u8
            },
    )
}

/// Bytes left to read from a file at its current position.
pub open spec fn remaining(f: FileDescriptor) -> int {
    if f.data@.len() > f.offset { f.data@.len() - f.offset } else { 0 }
}

pub open spec fn min(a: int, b: int) -> int {
    if a < b { a } else { b }
}

/// Opening `name` of ramdisk `image` with `flags` took descriptors `f0` to
/// `f1` with result `r`: into the lowest free descriptor from 3 up, a copy
/// of the file (an empty one when it is missing and `flags` asks for
/// writing) at position 0; refused, changing nothing, when no descriptor is
/// free or the file is missing and not to be written.
pub open spec fn opened(
    f0: Seq<Option<FileDescriptor>>,
    f1: Seq<Option<FileDescriptor>>,
    image: Seq<u8>,
    name: Seq<char>,
    flags: u64,
    r: Option<usize>,
) -> bool {
    let found = lookup(image, encode_utf8(uppercase_of(name)));
    let writable = flags & 1 != 0;
    match first_free_fd(f0) {
        None => r is None && f1 =~= f0,
        Some(slot) => if found is None && !writable {
            r is None && f1 =~= f0
        } else {
            &&& r == Some(slot as usize)
            &&& f1[slot] matches Some(f) && f.filename@ == name && f.offset == 0 && f.writable
                == writable && f.data@ == (match found {
                Some(d) => d,
                None => Seq::empty(),
            })
            &&& forall|j: int| 0 <= j < MAX_FDS && j != slot ==> f1[j] == f0[j]
        },
    }
}

/// Reading up to `count` bytes of `fd` took descriptors `f0` to `f1` with
/// result `r`: what is left from the position, at most `count`, and the
/// position advanced by that; 0 and nothing changed for a free or
/// out-of-range descriptor.
pub open spec fn was_read(
    f0: Seq<Option<FileDescriptor>>,
    f1: Seq<Option<FileDescriptor>>,
    fd: usize,
    count: usize,
    r: usize,
) -> bool {
    if fd >= MAX_FDS || f0[fd as int] is None {
        r == 0 && f1 =~= f0
    } else {
        let f = f0[fd as int]->0;
        &&& r == min(count as int, remaining(f))
        &&& f1[fd as int] matches Some(g) && g.offset == f.offset + r && g.data@ == f.data@
            && g.filename == f.filename && g.writable == f.writable
        &&& forall|j: int| 0 <= j < MAX_FDS && j != fd ==> f1[j] == f0[j]
    }
}

/// Writing up to `count` bytes of `src` to `fd` took descriptors `f0` to
/// `f1` with result `r`: the bytes written at the position, which advances
/// by their number; 0 and nothing changed for a free, read-only or
/// out-of-range descriptor.
pub open spec fn was_written(
    f0: Seq<Option<FileDescriptor>>,
    f1: Seq<Option<FileDescriptor>>,
    fd: usize,
    src: Seq<u8>,
    count: usize,
    r: usize,
) -> bool {
    if fd >= MAX_FDS || f0[fd as int] is None || !(f0[fd as int]->0).writable {
        r == 0 && f1 =~= f0
    } else {
        let f = f0[fd as int]->0;
        &&& r == min(count as int, src.len() as int)
        &&& f1[fd as int] matches Some(g) && g.offset == f.offset + r && g.data@ == written(
            f.data@,
            f.offset as int,
            src.subrange(0, r as int),
        ) && g.filename == f.filename && g.writable
        &&& forall|j: int| 0 <= j < MAX_FDS && j != fd ==> f1[j] == f0[j]
    }
}

/// Closing `fd` took descriptors `f0` to `f1` with result `r`: true and the
/// descriptor freed when it was open, else false and nothing changed.
pub open spec fn was_closed(
    f0: Seq<Option<FileDescriptor>>,
    f1: Seq<Option<FileDescriptor>>,
    fd: usize,
    r: bool,
) -> bool {
    &&& r == (fd < MAX_FDS && f0[fd as int] is Some)
    &&& r ==> f1 =~= f0.update(fd as int, None)
    &&& !r ==> f1 =~= f0
}

/// Descriptors 0, 1 and 2 (the standard streams) hold no file, and every
/// open file's position lies within its contents.
pub open spec fn fds_sound(fds: Seq<Option<FileDescriptor>>) -> bool {
    &&& fds[0] is None
    &&& fds[1] is None
    &&& fds[2] is None
    &&& forall|i: int|
        0 <= i < fds.len() ==> match #[trigger] fds[i] {
            Some(f) => f.offset <= f.data@.len(),
            None => true,
        }
}

/// One open, read, write or close took descriptors `f0` to `f1`.
pub open spec fn fd_call(f0: Seq<Option<FileDescriptor>>, f1: Seq<Option<FileDescriptor>>) -> bool {
    ||| exists|image: Seq<u8>, name: Seq<char>, flags: u64, r: Option<usize>|
        #[trigger] opened(f0, f1, image, name, flags, r)
    ||| exists|fd: usize, count: usize, r: usize| #[trigger] was_read(f0, f1, fd, count, r)
    ||| exists|fd: usize, src: Seq<u8>, count: usize, r: usize|
        #[trigger] was_written(f0, f1, fd, src, count, r)
    ||| exists|fd: usize, r: bool| #[trigger] was_closed(f0, f1, fd, r)
}

proof fn lemma_first_free_exists(fds: Seq<Option<FileDescriptor>>, k: int)
    requires
        FIRST_FILE_FD <= k <= MAX_FDS,
        forall|j: int| FIRST_FILE_FD <= j < k ==> fds[j] is Some,
        exists|i: int| k <= i < MAX_FDS && fds[i] is None,
    ensures
        exists|i: int|
            FIRST_FILE_FD <= i < MAX_FDS && fds[i] is None && forall|j: int|
                FIRST_FILE_FD <= j < i ==> fds[j] is Some,
    decreases MAX_FDS - k,
{
    if fds[k] is None {
        assert(FIRST_FILE_FD <= k < MAX_FDS && fds[k] is None && forall|j: int|
            FIRST_FILE_FD <= j < k ==> fds[j] is Some);
    } else {
        lemma_first_free_exists(fds, k + 1);
    }
}

/// The descriptor `first_free_fd` picks is a free one from 3 up.
proof fn lemma_first_free_range(fds: Seq<Option<FileDescriptor>>)
    ensures
        first_free_fd(fds) matches Some(s) ==> FIRST_FILE_FD <= s < MAX_FDS && fds[s] is None,
{
    if exists|i: int| FIRST_FILE_FD <= i < MAX_FDS && fds[i] is None {
        lemma_first_free_exists(fds, FIRST_FILE_FD as int);
    }
}

proof fn lemma_call_keeps_sound(f0: Seq<Option<FileDescriptor>>, f1: Seq<Option<FileDescriptor>>)
    requires
        f0.len() == MAX_FDS,
        f1.len() == MAX_FDS,
        fds_sound(f0),
        fd_call(f0, f1),
    ensures
        fds_sound(f1),
{
    if exists|image: Seq<u8>, name: Seq<char>, flags: u64, r: Option<usize>|
        #[trigger] opened(f0, f1, image, name, flags, r) {
        let (image, name, flags, r) = choose|image: Seq<u8>, name: Seq<char>, flags: u64, r: Option<usize>|
            #[trigger] opened(f0, f1, image, name, flags, r);
        lemma_first_free_range(f0);
        assert forall|i: int| 0 <= i < f1.len() implies match #[trigger] f1[i] {
            Some(f) => f.offset <= f.data@.len(),
            None => true,
        } by {
            assert(match f0[i] {
                Some(f) => f.offset <= f.data@.len(),
                None => true,
            });
        }
    } else if exists|fd: usize, count: usize, r: usize| #[trigger] was_read(f0, f1, fd, count, r) {
        let (fd, count, r) = choose|fd: usize, count: usize, r: usize| #[trigger] was_read(f0, f1, fd, count, r);
        assert forall|i: int| 0 <= i < f1.len() implies match #[trigger] f1[i] {
            Some(f) => f.offset <= f.data@.len(),
            None => true,
        } by {
            assert(match f0[i] {
                Some(f) => f.offset <= f.data@.len(),
                None => true,
            });
            if fd < MAX_FDS {
                assert(match f0[fd as int] {
                    Some(f) => f.offset <= f.data@.len(),
                    None => true,
                });
            }
        }
    } else if exists|fd: usize, src: Seq<u8>, count: usize, r: usize|
        #[trigger] was_written(f0, f1, fd, src, count, r) {
        let (fd, src, count, r) = choose|fd: usize, src: Seq<u8>, count: usize, r: usize|
            #[trigger] was_written(f0, f1, fd, src, count, r);
        assert forall|i: int| 0 <= i < f1.len() implies match #[trigger] f1[i] {
            Some(f) => f.offset <= f.data@.len(),
            None => true,
        } by {
            assert(match f0[i] {
                Some(f) => f.offset <= f.data@.len(),
                None => true,
            });
        }
    } else {
        let (fd, r) = choose|fd: usize, r: bool| #[trigger] was_closed(f0, f1, fd, r);
        assert forall|i: int| 0 <= i < f1.len() implies match #[trigger] f1[i] {
            Some(f) => f.offset <= f.data@.len(),
            None => true,
        } by {
            assert(match f0[i] {
                Some(f) => f.offset <= f.data@.len(),
                None => true,
            });
        }
    }
}

/// Descriptor tables over any run of calls: from a table with every
/// descriptor free, through any sequence of opens, reads, writes and
/// closes, descriptors 0, 1 and 2 stay free and every open file's position
/// lies within its contents.
pub proof fn descriptors_sound_over_runs(ts: Seq<Seq<Option<FileDescriptor>>>)
    requires
        ts.len() >= 1,
        forall|n: int| 0 <= n < ts.len() ==> (#[trigger] ts[n]).len() == MAX_FDS,
        forall|i: int| 0 <= i < MAX_FDS ==> ts[0][i] is None,
        forall|n: int| 0 <= n < ts.len() - 1 ==> fd_call(#[trigger] ts[n], ts[n + 1]),
    ensures
        forall|n: int| 0 <= n < ts.len() ==> fds_sound(#[trigger] ts[n]),
{
    assert forall|n: int| 0 <= n < ts.len() implies fds_sound(#[trigger] ts[n]) by {
        lemma_run_sound(ts, n);
    }
}

proof fn lemma_run_sound(ts: Seq<Seq<Option<FileDescriptor>>>, n: int)
    requires
        ts.len() >= 1,
        forall|n: int| 0 <= n < ts.len() ==> (#[trigger] ts[n]).len() == MAX_FDS,
        forall|i: int| 0 <= i < MAX_FDS ==> ts[0][i] is None,
        forall|n: int| 0 <= n < ts.len() - 1 ==> fd_call(#[trigger] ts[n], ts[n + 1]),
        0 <= n < ts.len(),
    ensures
        fds_sound(ts[n]),
    decreases n,
{
    if n == 0 {
        assert(ts[0][0] is None && ts[0][1] is None && ts[0][2] is None);
        assert forall|i: int| 0 <= i < ts[0].len() implies match #[trigger] ts[0][i] {
            Some(f) => f.offset <= f.data@.len(),
            None => true,
        } by {}
    } else {
        lemma_run_sound(ts, n - 1);
        assert(fd_call(ts[n - 1], ts[n]));
        assert(ts[n - 1].len() == MAX_FDS && ts[n].len() == MAX_FDS);
        lemma_call_keeps_sound(ts[n - 1], ts[n]);
    }
}

impl FdTable {
    /// Well-formed: exactly `MAX_FDS` slots.
    pub open spec fn wf(&self) -> bool {
        self.fds@.len() == MAX_FDS
    }

    /// Descriptors 0, 1 and 2 (the standard streams) hold no file, and every
    /// open file's position lies within its contents.
    pub open spec fn descriptors_sound(&self) -> bool {
        fds_sound(self.fds@)
    }

    /// A table with every slot free.
    pub fn new() -> (r: FdTable)
        ensures
            r.wf(),
            r.descriptors_sound(),
            forall|i: int| 0 <= i < MAX_FDS ==> (#[trigger] r.fds@[i]) is None,
    {
        let mut fds: Vec<Option<FileDescriptor>> = Vec::new();
        let mut i: usize = 0;
        while i < MAX_FDS
            invariant
                i <= MAX_FDS,
                fds@.len() == i,
                forall|j: int| 0 <= j < i ==> (#[trigger] fds@[j]) is None,
            decreases MAX_FDS - i,
        {
            fds.push(None);
            i = i + 1;
        }
        FdTable { fds }
    }

    /// The lowest free descriptor from 3 upward, or `None` when all are taken.
    pub fn alloc_fd(&self) -> (r: Option<usize>)
        requires
            self.wf(),
        ensures
            r matches Some(i) ==> first_free_fd(self.fds@) == Some(i as int),
            r is None ==> first_free_fd(self.fds@) is None,
    {
        let mut i: usize = FIRST_FILE_FD;
        while i < MAX_FDS
            invariant
                FIRST_FILE_FD <= i <= MAX_FDS,
                self.wf(),
                forall|j: int| FIRST_FILE_FD <= j < i ==> (#[trigger] self.fds@[j]) is Some,
            decreases MAX_FDS - i,
        {
            if self.fds[i].is_none() {
                proof {
                    lemma_first_free_is(self.fds@, i as int);
                }
                return Some(i);
            }
            i = i + 1;
        }
        None
    }

    /// Open a file of the ramdisk `image` into the lowest free descriptor.
    /// The file's contents are copied. A missing file is created empty when
    /// `flags` asks for writing (bit 0), and refused otherwise.
    pub fn open(&mut self, image: &[u8], filename: &str, flags: u64) -> (r: Option<usize>)
        requires
            old(self).wf(),
            readable(image@),
        ensures
            final(self).wf(),
            old(self).descriptors_sound() ==> final(self).descriptors_sound(),
            opened(old(self).fds@, final(self).fds@, image@, filename@, flags, r),
    {
        let fd = match self.alloc_fd() {
            Some(fd) => fd,
            None => return None,
        };
        let writable = flags & 1 != 0;
        let data = match fat32::read_file(image, filename) {
            Some(existing) => existing,
            None => {
                if writable {
                    Vec::new()
                } else {
                    return None;
                }
            },
        };
        let f = FileDescriptor { filename: filename.to_owned(), data, offset: 0, writable };
        self.fds.set(fd, Some(f));
        Some(fd)
    }

    /// Read up to `count` bytes from `fd` at its position into the front of
    /// `buf`, and advance the position. Returns the number of bytes read (0 for
    /// a free or out-of-range descriptor).
    pub fn read(&mut self, fd: usize, buf: &mut [u8], count: usize) -> (r: usize)
        requires
            old(self).wf(),
            fd < MAX_FDS && old(self).fds@[fd as int] is Some ==> min(
                count as int,
                remaining(old(self).fds@[fd as int]->0),
            ) <= old(buf)@.len(),
        ensures
            final(self).wf(),
            old(self).descriptors_sound() ==> final(self).descriptors_sound(),
            final(buf)@.len() == old(buf)@.len(),
            was_read(old(self).fds@, final(self).fds@, fd, count, r),
            (fd >= MAX_FDS || old(self).fds@[fd as int] is None) ==> final(buf)@ == old(buf)@,
            fd < MAX_FDS && old(self).fds@[fd as int] is Some ==> {
                let f = old(self).fds@[fd as int]->0;
                &&& forall|j: int| 0 <= j < r ==> final(buf)@[j] == f.data@[f.offset + j]
                &&& forall|j: int| r <= j < old(buf)@.len() ==> final(buf)@[j] == old(buf)@[j]
            },
    {
        if fd >= MAX_FDS {
            return 0;
        }
        match &mut self.fds[fd] {
            Some(file) => {
                let remaining = if file.data.len() > file.offset {
                    file.data.len() - file.offset
                } else {
                    0
                };
                let to_read = if count < remaining { count } else { remaining };
                let ghost old_buf = buf@;
                let start = file.offset;
                let mut k: usize = 0;
                while k < to_read
                    invariant
                        k <= to_read,
                        to_read <= buf@.len(),
                        file.offset == start,
                        to_read == 0 || start + to_read <= file.data.len(),
                        buf@.len() == old_buf.len(),
                        forall|j: int|
                            0 <= j < k ==> buf@[j] == file.data@[file.offset + j],
                        forall|j: int| k <= j < buf@.len() ==> buf@[j] == old_buf[j],
                    decreases to_read - k,
                {
                    buf[k] = file.data[file.offset + k];
                    k = k + 1;
                }
                file.offset = file.offset + to_read;
                to_read
            },
            None => 0,
        }
    }

    /// Write up to `count` bytes of `buf` to `fd` at its position, growing the
    /// file as needed, and advance the position. Returns the number of bytes
    /// written (0 for a free, read-only or out-of-range descriptor).
    pub fn write(&mut self, fd: usize, buf: &[u8], count: usize) -> (r: usize)
        requires
            old(self).wf(),
            fd < MAX_FDS && old(self).fds@[fd as int] is Some && (old(self).fds@[fd as int]->0).writable
                ==> (old(self).fds@[fd as int]->0).offset + min(count as int, buf@.len() as int)
                <= usize::MAX,
        ensures
            final(self).wf(),
            old(self).descriptors_sound() ==> final(self).descriptors_sound(),
            was_written(old(self).fds@, final(self).fds@, fd, buf@, count, r),
    {
        if fd >= MAX_FDS {
            return 0;
        }
        match &mut self.fds[fd] {
            Some(file) => {
                if !file.writable {
                    return 0;
                }
                let to_write = if count < buf.len() { count } else { buf.len() };
                let needed = file.offset + to_write;
                let ghost old_data = file.data@;
                let ghost off = file.offset as int;
                if needed > file.data.len() {
                    file.data.resize(needed, 0);
                }
                let ghost grown = file.data@;
                let ghost name0 = file.filename;
                proof {
                    if needed > old_data.len() {
                        assert forall|j: int| 0 <= j < old_data.len() implies grown[j]
                            == old_data[j] by {
                            assert(grown.subrange(0, old_data.len() as int)[j] == grown[j]);
                        }
                        assert forall|j: int| old_data.len() <= j < needed implies grown[j]
                            == 0u8 by {
                            assert(cloned::<u8>(0u8, grown[j]));
                        }
                    } else {
                        assert(grown =~= old_data);
                    }
                }
                let mut k: usize = 0;
                while k < to_write
                    invariant
                        k <= to_write <= buf@.len(),
                        file.offset == off,
                        file.filename == name0,
                        file.writable,
                        off + to_write == needed,
                        file.data@.len() == grown.len(),
                        grown.len() >= needed,
                        forall|j: int| 0 <= j < k ==> file.data@[off + j] == buf@[j],
                        forall|j: int|
                            0 <= j < grown.len() && !(off <= j < off + k) ==> file.data@[j]
                                == grown[j],
                    decreases to_write - k,
                {
                    file.data.set(file.offset + k, buf[k]);
                    k = k + 1;
                }
                file.offset = needed;
                proof {
                    let w = written(old_data, off, buf@.subrange(0, to_write as int));
                    assert(file.data@.len() == w.len());
                    assert forall|j: int| 0 <= j < w.len() implies file.data@[j] == w[j] by {
                        if off <= j < off + to_write {
                            assert(file.data@[off + (j - off)] == buf@[j - off]);
                            assert(buf@.subrange(0, to_write as int)[j - off] == buf@[j - off]);
                        } else {
                            assert(file.data@[j] == grown[j]);
                            if j < old_data.len() {
                                assert(grown[j] == old_data[j]);
                            } else {
                                assert(grown[j] == 0u8);
                            }
                        }
                    }
                    assert(file.data@ =~= w);
                }
                to_write
            },
            None => 0,
        }
    }

    /// Close `fd`. True when it was open.
    pub fn close(&mut self, fd: usize) -> (r: bool)
        requires
            old(self).wf(),
        ensures
            final(self).wf(),
            old(self).descriptors_sound() ==> final(self).descriptors_sound(),
            was_closed(old(self).fds@, final(self).fds@, fd, r),
    {
        if fd >= MAX_FDS {
            return false;
        }
        if self.fds[fd].is_some() {
            self.fds.set(fd, None);
            true
        } else {
            false
        }
    }

    /// Size of the open file `fd`, or `u64::MAX` when it is not open.
    pub fn stat(&self, fd: usize) -> (r: u64)
        requires
            self.wf(),
        ensures
            fd < MAX_FDS && self.fds@[fd as int] is Some ==> r == (self.fds@[fd as int]->0).data@.len(),
            !(fd < MAX_FDS && self.fds@[fd as int] is Some) ==> r == u64::MAX,
    {
        if fd >= MAX_FDS {
            return u64::MAX;
        }
        match &self.fds[fd] {
            Some(file) => file.data.len() as u64,
            None => u64::MAX,
        }
    }
}

proof fn lemma_first_free_is(fds: Seq<Option<FileDescriptor>>, i: int)
    requires
        FIRST_FILE_FD <= i < MAX_FDS,
        fds[i] is None,
        forall|j: int| FIRST_FILE_FD <= j < i ==> (#[trigger] fds[j]) is Some,
    ensures
        first_free_fd(fds) == Some(i),
{
    let c = choose|k: int|
        FIRST_FILE_FD <= k < MAX_FDS && fds[k] is None && forall|j: int|
            FIRST_FILE_FD <= j < k ==> fds[j] is Some;
    assert(FIRST_FILE_FD <= c < MAX_FDS && fds[c] is None && forall|j: int|
        FIRST_FILE_FD <= j < c ==> fds[j] is Some);
    if c < i {
        assert(fds[c] is Some);
    }
    if c > i {
        assert(fds[i] is Some);
    }
}

/// Writing `src` at `off` then reading back from `off` gives `src`; bytes
/// before `off` or after the written range keep their values, and the file
/// is at least as long as before and reaches the end of the write.
pub proof fn write_then_read(data: Seq<u8>, off: int, src: Seq<u8>)
    requires
        0 <= off,
    ensures
        written(data, off, src).subrange(off, off + src.len()) == src,
        forall|k: int|
            0 <= k < data.len() && !(off <= k < off + src.len()) ==> #[trigger] written(data, off, src)[k]
                == data[k],
        written(data, off, src).len() >= data.len(),
        written(data, off, src).len() >= off + src.len(),
{
    assert(written(data, off, src).subrange(off, off + src.len()) =~= src);
}

} // verus!
