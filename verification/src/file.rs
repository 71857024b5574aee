//! File open flags and the builder that collects the options for opening a
//! file. Opening, reading and writing are done by the program around the
//! library, which hands it the options that [`FileBuilder::open`] settles.

use vstd::prelude::*;
use crate::pool::Pool;
use crate::status::{status_from_code, status_of_code, Status, APR_EINVAL};

verus! {

/// File open flags
#[derive(Debug, Clone, Copy, PartialEq, Eq, Structural)]
pub struct OpenFlags(pub i32);

/// Open file for reading
pub const APR_FOPEN_READ: i32 = 0x1;
/// Open file for writing
pub const APR_FOPEN_WRITE: i32 = 0x2;
/// Create file if it doesn't exist
pub const APR_FOPEN_CREATE: i32 = 0x4;
/// Open file in append mode
pub const APR_FOPEN_APPEND: i32 = 0x8;
/// Truncate file if it exists
pub const APR_FOPEN_TRUNCATE: i32 = 0x10;
/// Open file in binary mode
pub const APR_FOPEN_BINARY: i32 = 0x20;
/// Fail if file exists (used with CREATE)
pub const APR_FOPEN_EXCL: i32 = 0x40;
/// Open file with buffering
pub const APR_FOPEN_BUFFERED: i32 = 0x80;
/// Delete file when closed
pub const APR_FOPEN_DELONCLOSE: i32 = 0x100;
/// Platform-dependent thread-safe mode
pub const APR_FOPEN_XTHREAD: i32 = 0x200;
/// Platform-dependent shared lock mode
pub const APR_FOPEN_SHARELOCK: i32 = 0x400;
/// Don't register cleanup when pool is destroyed
pub const APR_FOPEN_NOCLEANUP: i32 = 0x800;
/// Advisory flag for sendfile support
pub const APR_FOPEN_SENDFILE_ENABLED: i32 = 0x1000;
/// Platform-dependent large file support
pub const APR_FOPEN_LARGEFILE: i32 = 0x4000;

/// The union of a sequence of flag words.
pub open spec fn spec_fold_or(s: Seq<OpenFlags>) -> i32
    decreases s.len(),
{
    if s.len() == 0 {
        0
    } else {
        spec_fold_or(s.drop_last()) | s.last().0
    }
}

impl OpenFlags {
    /// Open file for reading
    #[allow(non_snake_case)]
    pub fn READ() -> (r: OpenFlags)
        ensures
            r.0 == APR_FOPEN_READ,
    {
        OpenFlags(APR_FOPEN_READ)
    }
    /// Open file for writing
    #[allow(non_snake_case)]
    pub fn WRITE() -> (r: OpenFlags)
        ensures
            r.0 == APR_FOPEN_WRITE,
    {
        OpenFlags(APR_FOPEN_WRITE)
    }
    /// Create file if it doesn't exist
    #[allow(non_snake_case)]
    pub fn CREATE() -> (r: OpenFlags)
        ensures
            r.0 == APR_FOPEN_CREATE,
    {
        OpenFlags(APR_FOPEN_CREATE)
    }
    /// Open file in append mode
    #[allow(non_snake_case)]
    pub fn APPEND() -> (r: OpenFlags)
        ensures
            r.0 == APR_FOPEN_APPEND,
    {
        OpenFlags(APR_FOPEN_APPEND)
    }
    /// Truncate file if it exists
    #[allow(non_snake_case)]
    pub fn TRUNCATE() -> (r: OpenFlags)
        ensures
            r.0 == APR_FOPEN_TRUNCATE,
    {
        OpenFlags(APR_FOPEN_TRUNCATE)
    }
    /// Open file in binary mode
    #[allow(non_snake_case)]
    pub fn BINARY() -> (r: OpenFlags)
        ensures
            r.0 == APR_FOPEN_BINARY,
    {
        OpenFlags(APR_FOPEN_BINARY)
    }
    /// Fail if file exists (used with CREATE)
    #[allow(non_snake_case)]
    pub fn EXCL() -> (r: OpenFlags)
        ensures
            r.0 == APR_FOPEN_EXCL,
    {
        OpenFlags(APR_FOPEN_EXCL)
    }
    /// Open file with buffering
    #[allow(non_snake_case)]
    pub fn BUFFERED() -> (r: OpenFlags)
        ensures
            r.0 == APR_FOPEN_BUFFERED,
    {
        OpenFlags(APR_FOPEN_BUFFERED)
    }
    /// Delete file when closed
    #[allow(non_snake_case)]
    pub fn DELONCLOSE() -> (r: OpenFlags)
        ensures
            r.0 == APR_FOPEN_DELONCLOSE,
    {
        OpenFlags(APR_FOPEN_DELONCLOSE)
    }
    /// Platform-dependent thread-safe mode
    #[allow(non_snake_case)]
    pub fn XTHREAD() -> (r: OpenFlags)
        ensures
            r.0 == APR_FOPEN_XTHREAD,
    {
        OpenFlags(APR_FOPEN_XTHREAD)
    }
    /// Platform-dependent shared lock mode
    #[allow(non_snake_case)]
    pub fn SHARELOCK() -> (r: OpenFlags)
        ensures
            r.0 == APR_FOPEN_SHARELOCK,
    {
        OpenFlags(APR_FOPEN_SHARELOCK)
    }
    /// Don't register cleanup when pool is destroyed
    #[allow(non_snake_case)]
    pub fn NOCLEANUP() -> (r: OpenFlags)
        ensures
            r.0 == APR_FOPEN_NOCLEANUP,
    {
        OpenFlags(APR_FOPEN_NOCLEANUP)
    }
    /// Advisory flag for sendfile support
    #[allow(non_snake_case)]
    pub fn SENDFILE_ENABLED() -> (r: OpenFlags)
        ensures
            r.0 == APR_FOPEN_SENDFILE_ENABLED,
    {
        OpenFlags(APR_FOPEN_SENDFILE_ENABLED)
    }
    /// Platform-dependent large file support
    #[allow(non_snake_case)]
    pub fn LARGEFILE() -> (r: OpenFlags)
        ensures
            r.0 == APR_FOPEN_LARGEFILE,
    {
        OpenFlags(APR_FOPEN_LARGEFILE)
    }

    /// Combine multiple flags: the bitwise union of their words.
    pub fn combine(flags: &[OpenFlags]) -> (r: Self)
        ensures
            r.0 == spec_fold_or(flags@),
    {
        let mut combined: i32 = 0;
        let mut i: usize = 0;
        while i < flags.len()
            invariant
                i <= flags@.len(),
                combined == spec_fold_or(flags@.subrange(0, i as int)),
            decreases flags@.len() - i,
        {
            proof {
                assert(flags@.subrange(0, i + 1).drop_last() =~= flags@.subrange(0, i as int));
            }
            combined = combined | flags[i].0;
            i = i + 1;
        }
        proof {
            assert(flags@.subrange(0, flags@.len() as int) =~= flags@);
        }
        OpenFlags(combined)
    }

    /// The flag word.
    pub fn bits(&self) -> (r: i32)
        ensures
            r == self.0,
    {
        self.0
    }
}

/// File permissions
pub type FilePerms = i32;

/// What it takes to open a file: its flags and permissions.
#[derive(Debug, Clone, Copy, PartialEq, Eq, Structural)]
pub struct OpenOptions {
    /// The open flags.
    pub flags: OpenFlags,
    /// The permissions for a created file.
    pub perms: FilePerms,
}

/// Builder pattern for File creation with fluent API
pub struct FileBuilder<'a> {
    flags: OpenFlags,
    perms: FilePerms,
    pool: Option<&'a Pool>,
}

impl<'a> FileBuilder<'a> {
    /// The flags collected so far.
    pub closed spec fn spec_flags(&self) -> i32 {
        self.flags.0
    }

    /// The permissions collected so far.
    pub closed spec fn spec_perms(&self) -> i32 {
        self.perms
    }

    /// Whether a pool was given.
    pub closed spec fn spec_has_pool(&self) -> bool {
        self.pool is Some
    }

    /// Create a FileBuilder with default values: no flags, permissions
    /// 0o644, no pool.
    pub fn new() -> (r: Self)
        ensures
            r.spec_flags() == 0,
            r.spec_perms() == 0o644,
            !r.spec_has_pool(),
    {
        FileBuilder { flags: OpenFlags(0), perms: 0o644, pool: None }
    }

    /// Set read flag
    pub fn read(self) -> (r: Self)
        ensures
            r.spec_flags() == self.spec_flags() | APR_FOPEN_READ,
            r.spec_perms() == self.spec_perms(),
            r.spec_has_pool() == self.spec_has_pool(),
    {
        FileBuilder { flags: OpenFlags(self.flags.0 | APR_FOPEN_READ), perms: self.perms, pool: self.pool }
    }

    /// Set write flag
    pub fn write(self) -> (r: Self)
        ensures
            r.spec_flags() == self.spec_flags() | APR_FOPEN_WRITE,
            r.spec_perms() == self.spec_perms(),
            r.spec_has_pool() == self.spec_has_pool(),
    {
        FileBuilder { flags: OpenFlags(self.flags.0 | APR_FOPEN_WRITE), perms: self.perms, pool: self.pool }
    }

    /// Set create flag
    pub fn create(self) -> (r: Self)
        ensures
            r.spec_flags() == self.spec_flags() | APR_FOPEN_CREATE,
            r.spec_perms() == self.spec_perms(),
            r.spec_has_pool() == self.spec_has_pool(),
    {
        FileBuilder { flags: OpenFlags(self.flags.0 | APR_FOPEN_CREATE), perms: self.perms, pool: self.pool }
    }

    /// Set append flag
    pub fn append(self) -> (r: Self)
        ensures
            r.spec_flags() == self.spec_flags() | APR_FOPEN_APPEND,
            r.spec_perms() == self.spec_perms(),
            r.spec_has_pool() == self.spec_has_pool(),
    {
        FileBuilder { flags: OpenFlags(self.flags.0 | APR_FOPEN_APPEND), perms: self.perms, pool: self.pool }
    }

    /// Set truncate flag
    pub fn truncate(self) -> (r: Self)
        ensures
            r.spec_flags() == self.spec_flags() | APR_FOPEN_TRUNCATE,
            r.spec_perms() == self.spec_perms(),
            r.spec_has_pool() == self.spec_has_pool(),
    {
        FileBuilder { flags: OpenFlags(self.flags.0 | APR_FOPEN_TRUNCATE), perms: self.perms, pool: self.pool }
    }

    /// Set binary flag
    pub fn binary(self) -> (r: Self)
        ensures
            r.spec_flags() == self.spec_flags() | APR_FOPEN_BINARY,
            r.spec_perms() == self.spec_perms(),
            r.spec_has_pool() == self.spec_has_pool(),
    {
        FileBuilder { flags: OpenFlags(self.flags.0 | APR_FOPEN_BINARY), perms: self.perms, pool: self.pool }
    }

    /// Set exclusive flag
    pub fn exclusive(self) -> (r: Self)
        ensures
            r.spec_flags() == self.spec_flags() | APR_FOPEN_EXCL,
            r.spec_perms() == self.spec_perms(),
            r.spec_has_pool() == self.spec_has_pool(),
    {
        FileBuilder { flags: OpenFlags(self.flags.0 | APR_FOPEN_EXCL), perms: self.perms, pool: self.pool }
    }

    /// Set file permissions
    pub fn permissions(self, perms: FilePerms) -> (r: Self)
        ensures
            r.spec_flags() == self.spec_flags(),
            r.spec_perms() == perms,
            r.spec_has_pool() == self.spec_has_pool(),
    {
        FileBuilder { flags: self.flags, perms, pool: self.pool }
    }

    /// Set the pool to use (required)
    pub fn pool(self, pool: &'a Pool) -> (r: Self)
        ensures
            r.spec_flags() == self.spec_flags(),
            r.spec_perms() == self.spec_perms(),
            r.spec_has_pool(),
    {
        FileBuilder { flags: self.flags, perms: self.perms, pool: Some(pool) }
    }

    /// Settle the options for opening a file: without a pool the builder is
    /// refused as an invalid argument; otherwise the collected flags and
    /// permissions are the options to open with.
    pub fn open(self) -> (r: Result<OpenOptions, Status>)
        ensures
            !self.spec_has_pool() ==> r == Err::<OpenOptions, Status>(status_of_code(APR_EINVAL)),
            self.spec_has_pool() ==> r == Ok::<OpenOptions, Status>(
                OpenOptions { flags: OpenFlags(self.spec_flags()), perms: self.spec_perms() },
            ),
    {
        match self.pool {
            None => Err(status_from_code(APR_EINVAL)),
            Some(_) => Ok(OpenOptions { flags: self.flags, perms: self.perms }),
        }
    }
}

impl<'a> Default for FileBuilder<'a> {
    fn default() -> (r: Self)
        ensures
            r.spec_flags() == 0,
            r.spec_perms() == 0o644,
            !r.spec_has_pool(),
    {
        Self::new()
    }
}

/// A builder for a file, with default values.
pub fn builder() -> (r: FileBuilder<'static>)
    ensures
        r.spec_flags() == 0,
        r.spec_perms() == 0o644,
        !r.spec_has_pool(),
{
    FileBuilder::new()
}

/// The options with which a file is opened to write it from scratch:
/// write, create, truncate, permissions 0o644.
pub fn write_options() -> (r: OpenOptions)
    ensures
        r.flags.0 == APR_FOPEN_WRITE | APR_FOPEN_CREATE | APR_FOPEN_TRUNCATE,
        r.perms == 0o644,
{
    let flags = [OpenFlags::WRITE(), OpenFlags::CREATE(), OpenFlags::TRUNCATE()];
    let combined = OpenFlags::combine(&flags);
    proof {
        let s = flags@;
        assert(s.drop_last().drop_last().drop_last() =~= Seq::<OpenFlags>::empty());
        assert(spec_fold_or(s.drop_last().drop_last().drop_last()) == 0);
        assert(spec_fold_or(s.drop_last().drop_last()) == 0i32 | APR_FOPEN_WRITE);
        assert(spec_fold_or(s.drop_last()) == (0i32 | APR_FOPEN_WRITE) | APR_FOPEN_CREATE);
        assert(spec_fold_or(s) == ((0i32 | APR_FOPEN_WRITE) | APR_FOPEN_CREATE) | APR_FOPEN_TRUNCATE);
        assert(0i32 | APR_FOPEN_WRITE == APR_FOPEN_WRITE) by (bit_vector);
    }
    OpenOptions { flags: combined, perms: 0o644 }
}

/// The options with which a file is opened to read it: read, no
/// permissions.
pub fn read_options() -> (r: OpenOptions)
    ensures
        r.flags.0 == APR_FOPEN_READ,
        r.perms == 0,
{
    OpenOptions { flags: OpenFlags::READ(), perms: 0 }
}

/// Numeric value of `APR_EACCES`: the operating system's "permission
/// denied".
pub const APR_EACCES: u32 = 13;

/// How the runtime opens a file for a set of flags, as it hands them to
/// open(2) on Unix: the access asked for, and whether the file is written
/// at its end, emptied, created, and created only when it does not exist.
#[derive(Debug, Clone, Copy, PartialEq, Eq, Structural)]
pub struct OpenMode {
    pub read: bool,
    pub write: bool,
    pub append: bool,
    pub truncate: bool,
    pub create: bool,
    pub exclusive: bool,
}

/// Whether a flag word holds a flag.
pub open spec fn has_flag(bits: i32, flag: i32) -> bool {
    bits & flag != 0
}

/// Whether the runtime refuses a set of flags before opening: neither
/// reading nor writing is asked for, or an exclusive open does not create.
pub open spec fn open_refused(bits: i32) -> bool {
    (!has_flag(bits, APR_FOPEN_READ) && !has_flag(bits, APR_FOPEN_WRITE)) || (has_flag(
        bits,
        APR_FOPEN_EXCL,
    ) && !has_flag(bits, APR_FOPEN_CREATE))
}

/// How a file is opened for a set of flags: refused with `EACCES` when
/// neither reading nor writing is asked for, or when an exclusive open
/// does not create; otherwise each open(2) flag follows its runtime flag,
/// and an exclusive open is one that creates.
pub fn open_mode(flags: OpenFlags) -> (r: Result<OpenMode, Status>)
    ensures
        open_refused(flags.0) ==> r == Err::<OpenMode, Status>(status_of_code(APR_EACCES)),
        !open_refused(flags.0) ==> r == Ok::<OpenMode, Status>(
            OpenMode {
                read: has_flag(flags.0, APR_FOPEN_READ),
                write: has_flag(flags.0, APR_FOPEN_WRITE),
                append: has_flag(flags.0, APR_FOPEN_APPEND),
                truncate: has_flag(flags.0, APR_FOPEN_TRUNCATE),
                create: has_flag(flags.0, APR_FOPEN_CREATE),
                exclusive: has_flag(flags.0, APR_FOPEN_EXCL),
            },
        ),
{
    let b = flags.0;
    let read = b & APR_FOPEN_READ != 0;
    let write = b & APR_FOPEN_WRITE != 0;
    let create = b & APR_FOPEN_CREATE != 0;
    let exclusive = b & APR_FOPEN_EXCL != 0;
    if !read && !write {
        return Err(status_from_code(APR_EACCES));
    }
    if exclusive && !create {
        return Err(status_from_code(APR_EACCES));
    }
    Ok(
        OpenMode {
            read,
            write,
            append: b & APR_FOPEN_APPEND != 0,
            truncate: b & APR_FOPEN_TRUNCATE != 0,
            create,
            exclusive,
        },
    )
}

} // verus!
