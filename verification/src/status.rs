//! Status codes of the portable runtime and their conversions.

use vstd::prelude::*;
use crate::text::{push_decimal, spec_decimal, string_push};
use vstd::std_specs::convert::FromSpecImpl;

verus! {

/// Status code type.
pub type StatusCode = u32;

/// Numeric value of `APR_SUCCESS`.
pub const APR_SUCCESS: u32 = 0;
/// Numeric value of `APR_ENOSTAT`.
pub const APR_ENOSTAT: u32 = 20001;
/// Numeric value of `APR_ENOPOOL`.
pub const APR_ENOPOOL: u32 = 20002;
/// Numeric value of `APR_EBADDATE`.
pub const APR_EBADDATE: u32 = 20004;
/// Numeric value of `APR_EINVALSOCK`.
pub const APR_EINVALSOCK: u32 = 20005;
/// Numeric value of `APR_ENOPROC`.
pub const APR_ENOPROC: u32 = 20006;
/// Numeric value of `APR_ENOTIME`.
pub const APR_ENOTIME: u32 = 20007;
/// Numeric value of `APR_ENODIR`.
pub const APR_ENODIR: u32 = 20008;
/// Numeric value of `APR_ENOLOCK`.
pub const APR_ENOLOCK: u32 = 20009;
/// Numeric value of `APR_ENOPOLL`.
pub const APR_ENOPOLL: u32 = 20010;
/// Numeric value of `APR_ENOSOCKET`.
pub const APR_ENOSOCKET: u32 = 20011;
/// Numeric value of `APR_ENOTHREAD`.
pub const APR_ENOTHREAD: u32 = 20012;
/// Numeric value of `APR_ENOTHDKEY`.
pub const APR_ENOTHDKEY: u32 = 20013;
/// Numeric value of `APR_ENOSHMAVAIL`.
pub const APR_ENOSHMAVAIL: u32 = 20015;
/// Numeric value of `APR_EDSOOPEN`.
pub const APR_EDSOOPEN: u32 = 20019;
/// Numeric value of `APR_EGENERAL`.
pub const APR_EGENERAL: u32 = 20014;
/// Numeric value of `APR_EBADIP`.
pub const APR_EBADIP: u32 = 20016;
/// Numeric value of `APR_EBADMASK`.
pub const APR_EBADMASK: u32 = 20017;
/// Numeric value of `APR_ESYMNOTFOUND`.
pub const APR_ESYMNOTFOUND: u32 = 20026;
/// Numeric value of `APR_ENOTENOUGHENTROPY`.
pub const APR_ENOTENOUGHENTROPY: u32 = 20028;
/// Numeric value of `APR_INCHILD`.
pub const APR_INCHILD: u32 = 70001;
/// Numeric value of `APR_INPARENT`.
pub const APR_INPARENT: u32 = 70002;
/// Numeric value of `APR_DETACH`.
pub const APR_DETACH: u32 = 70003;
/// Numeric value of `APR_NOTDETACH`.
pub const APR_NOTDETACH: u32 = 70004;
/// Numeric value of `APR_CHILD_DONE`.
pub const APR_CHILD_DONE: u32 = 70005;
/// Numeric value of `APR_CHILD_NOTDONE`.
pub const APR_CHILD_NOTDONE: u32 = 70006;
/// Numeric value of `APR_TIMEUP`.
pub const APR_TIMEUP: u32 = 70007;
/// Numeric value of `APR_INCOMPLETE`.
pub const APR_INCOMPLETE: u32 = 70008;
/// Numeric value of `APR_BADCH`.
pub const APR_BADCH: u32 = 70012;
/// Numeric value of `APR_BADARG`.
pub const APR_BADARG: u32 = 70013;
/// Numeric value of `APR_EOF`.
pub const APR_EOF: u32 = 70014;
/// Numeric value of `APR_NOTFOUND`.
pub const APR_NOTFOUND: u32 = 70015;
/// Numeric value of `APR_ANONYMOUS`.
pub const APR_ANONYMOUS: u32 = 70019;
/// Numeric value of `APR_FILEBASED`.
pub const APR_FILEBASED: u32 = 70020;
/// Numeric value of `APR_KEYBASED`.
pub const APR_KEYBASED: u32 = 70021;
/// Numeric value of `APR_EINIT`.
pub const APR_EINIT: u32 = 70022;
/// Numeric value of `APR_ENOTIMPL`.
pub const APR_ENOTIMPL: u32 = 70023;
/// Numeric value of `APR_EMISMATCH`.
pub const APR_EMISMATCH: u32 = 70024;
/// Numeric value of `APR_EABSOLUTE`.
pub const APR_EABSOLUTE: u32 = 20020;
/// Numeric value of `APR_ERELATIVE`.
pub const APR_ERELATIVE: u32 = 20021;
/// Numeric value of `APR_EINCOMPLETE`.
pub const APR_EINCOMPLETE: u32 = 20022;
/// Numeric value of `APR_EABOVEROOT`.
pub const APR_EABOVEROOT: u32 = 20023;
/// Numeric value of `APR_EBUSY`.
pub const APR_EBUSY: u32 = 70025;
/// Numeric value of `APR_EPROC_UNKNOWN`.
pub const APR_EPROC_UNKNOWN: u32 = 20027;
/// Start of the range of status codes that carry an operating-system error.
pub const APR_OS_START_SYSERR: u32 = 720000;
/// Invalid argument, as the operating system numbers it.
pub const APR_EINVAL: u32 = 22;
/// Resource temporarily unavailable, as the operating system numbers it.
pub const APR_EAGAIN: u32 = 11;
/// Interrupted call, as the operating system numbers it.
pub const APR_EINTR: u32 = 4;
/// Out of memory, as the operating system numbers it.
pub const APR_ENOMEM: u32 = 12;

/// Status codes that operations of the runtime report.
#[derive(Debug, Clone, Copy, PartialEq, Eq, Structural)]
pub enum Status {
    /// Operation completed successfully.
    Success,
    /// Could not perform a stat on the file.
    NoStat,
    /// Could not create a new pool.
    NoPool,
    /// An invalid date has been provided.
    BadDate,
    /// An invalid socket was specified.
    InvalidSocket,
    /// No process was specified.
    NoProcess,
    /// No time was specified.
    NoTime,
    /// No directory was specified.
    NoDirectory,
    /// No lock was specified.
    NoLock,
    /// No poll was specified.
    NoPoll,
    /// No socket was specified.
    NoSocket,
    /// No thread was specified.
    NoThread,
    /// No thread key was specified.
    NoThreadKey,
    /// There is no shared memory available.
    NoSharedMemoryAvailable,
    /// A DSO loading error occurred.
    DSOOpen,
    /// A general failure, not covered elsewhere.
    General,
    /// An invalid IP address was specified.
    BadIpAddress,
    /// An invalid mask was specified.
    BadMask,
    /// Could not find the requested symbol.
    SymbolNotFound,
    /// Not enough entropy to complete the operation.
    NotEnoughEntropy,
    /// Program is currently executing in the child.
    InChild,
    /// Program is currently executing in the parent.
    InParent,
    /// The thread is detached.
    Detach,
    /// The thread is not detached.
    NotDetach,
    /// The child has finished executing.
    ChildDone,
    /// The child has not finished executing.
    ChildNotDone,
    /// The operation did not finish before the timeout.
    TimeUp,
    /// The operation was incomplete.
    Incomplete,
    /// An invalid character was specified.
    BadCh,
    /// An invalid argument was passed to a function.
    BadArgument,
    /// The end of file was reached.
    Eof,
    /// Could not find the requested resource.
    NotFound,
    /// This is an anonymous operation.
    Anonymous,
    /// This is a file based operation.
    FileBased,
    /// This is a key based operation.
    KeyBased,
    /// There was a problem during initialization.
    Initializer,
    /// The feature has not been implemented.
    NotImplemented,
    /// Two parameters were not compatible.
    Mismatch,
    /// The given path was absolute.
    Absolute,
    /// The given path was relative.
    Relative,
    /// The given path was neither relative nor absolute.
    IncompleteError,
    /// The given path was above the root path.
    AboveRoot,
    /// The given resource is busy.
    Busy,
    /// The process is not recognized by the system.
    ProcessUnknown,
}

/// The numeric code of a status.
pub open spec fn status_code(s: Status) -> u32 {
    match s {
        Status::Success => APR_SUCCESS,
        Status::NoStat => APR_ENOSTAT,
        Status::NoPool => APR_ENOPOOL,
        Status::BadDate => APR_EBADDATE,
        Status::InvalidSocket => APR_EINVALSOCK,
        Status::NoProcess => APR_ENOPROC,
        Status::NoTime => APR_ENOTIME,
        Status::NoDirectory => APR_ENODIR,
        Status::NoLock => APR_ENOLOCK,
        Status::NoPoll => APR_ENOPOLL,
        Status::NoSocket => APR_ENOSOCKET,
        Status::NoThread => APR_ENOTHREAD,
        Status::NoThreadKey => APR_ENOTHDKEY,
        Status::NoSharedMemoryAvailable => APR_ENOSHMAVAIL,
        Status::DSOOpen => APR_EDSOOPEN,
        Status::General => APR_EGENERAL,
        Status::BadIpAddress => APR_EBADIP,
        Status::BadMask => APR_EBADMASK,
        Status::SymbolNotFound => APR_ESYMNOTFOUND,
        Status::NotEnoughEntropy => APR_ENOTENOUGHENTROPY,
        Status::InChild => APR_INCHILD,
        Status::InParent => APR_INPARENT,
        Status::Detach => APR_DETACH,
        Status::NotDetach => APR_NOTDETACH,
        Status::ChildDone => APR_CHILD_DONE,
        Status::ChildNotDone => APR_CHILD_NOTDONE,
        Status::TimeUp => APR_TIMEUP,
        Status::Incomplete => APR_INCOMPLETE,
        Status::BadCh => APR_BADCH,
        Status::BadArgument => APR_BADARG,
        Status::Eof => APR_EOF,
        Status::NotFound => APR_NOTFOUND,
        Status::Anonymous => APR_ANONYMOUS,
        Status::FileBased => APR_FILEBASED,
        Status::KeyBased => APR_KEYBASED,
        Status::Initializer => APR_EINIT,
        Status::NotImplemented => APR_ENOTIMPL,
        Status::Mismatch => APR_EMISMATCH,
        Status::Absolute => APR_EABSOLUTE,
        Status::Relative => APR_ERELATIVE,
        Status::IncompleteError => APR_EINCOMPLETE,
        Status::AboveRoot => APR_EABOVEROOT,
        Status::Busy => APR_EBUSY,
        Status::ProcessUnknown => APR_EPROC_UNKNOWN,
    }
}

/// The status that a numeric code denotes; codes that name no status become `General`.
pub open spec fn status_of_code(code: u32) -> Status {
    if code == APR_SUCCESS {
        Status::Success
    } else if code == APR_ENOSTAT {
        Status::NoStat
    } else if code == APR_ENOPOOL {
        Status::NoPool
    } else if code == APR_EBADDATE {
        Status::BadDate
    } else if code == APR_EINVALSOCK {
        Status::InvalidSocket
    } else if code == APR_ENOPROC {
        Status::NoProcess
    } else if code == APR_ENOTIME {
        Status::NoTime
    } else if code == APR_ENODIR {
        Status::NoDirectory
    } else if code == APR_ENOLOCK {
        Status::NoLock
    } else if code == APR_ENOPOLL {
        Status::NoPoll
    } else if code == APR_ENOSOCKET {
        Status::NoSocket
    } else if code == APR_ENOTHREAD {
        Status::NoThread
    } else if code == APR_ENOTHDKEY {
        Status::NoThreadKey
    } else if code == APR_ENOSHMAVAIL {
        Status::NoSharedMemoryAvailable
    } else if code == APR_EDSOOPEN {
        Status::DSOOpen
    } else if code == APR_EGENERAL {
        Status::General
    } else if code == APR_EBADIP {
        Status::BadIpAddress
    } else if code == APR_EBADMASK {
        Status::BadMask
    } else if code == APR_ESYMNOTFOUND {
        Status::SymbolNotFound
    } else if code == APR_ENOTENOUGHENTROPY {
        Status::NotEnoughEntropy
    } else if code == APR_INCHILD {
        Status::InChild
    } else if code == APR_INPARENT {
        Status::InParent
    } else if code == APR_DETACH {
        Status::Detach
    } else if code == APR_NOTDETACH {
        Status::NotDetach
    } else if code == APR_CHILD_DONE {
        Status::ChildDone
    } else if code == APR_CHILD_NOTDONE {
        Status::ChildNotDone
    } else if code == APR_TIMEUP {
        Status::TimeUp
    } else if code == APR_INCOMPLETE {
        Status::Incomplete
    } else if code == APR_BADCH {
        Status::BadCh
    } else if code == APR_BADARG {
        Status::BadArgument
    } else if code == APR_EOF {
        Status::Eof
    } else if code == APR_NOTFOUND {
        Status::NotFound
    } else if code == APR_ANONYMOUS {
        Status::Anonymous
    } else if code == APR_FILEBASED {
        Status::FileBased
    } else if code == APR_KEYBASED {
        Status::KeyBased
    } else if code == APR_EINIT {
        Status::Initializer
    } else if code == APR_ENOTIMPL {
        Status::NotImplemented
    } else if code == APR_EMISMATCH {
        Status::Mismatch
    } else if code == APR_EABSOLUTE {
        Status::Absolute
    } else if code == APR_ERELATIVE {
        Status::Relative
    } else if code == APR_EINCOMPLETE {
        Status::IncompleteError
    } else if code == APR_EABOVEROOT {
        Status::AboveRoot
    } else if code == APR_EBUSY {
        Status::Busy
    } else if code == APR_EPROC_UNKNOWN {
        Status::ProcessUnknown
    } else {
        Status::General
    }
}

/// The message that the runtime gives for a status.
pub open spec fn status_message(s: Status) -> Seq<char> {
    match s {
        Status::Success => "Success"@,
        Status::NoStat => "Could not perform a stat on the file."@,
        Status::NoPool => "A new pool could not be created."@,
        Status::BadDate => "An invalid date has been provided"@,
        Status::InvalidSocket => "An invalid socket was returned"@,
        Status::NoProcess => "No process was provided and one was required."@,
        Status::NoTime => "No time was provided and one was required."@,
        Status::NoDirectory => "No directory was provided and one was required."@,
        Status::NoLock => "No lock was provided and one was required."@,
        Status::NoPoll => "No poll structure was provided and one was required."@,
        Status::NoSocket => "No socket was provided and one was required."@,
        Status::NoThread => "No thread was provided and one was required."@,
        Status::NoThreadKey => "No thread key structure was provided and one was required."@,
        Status::NoSharedMemoryAvailable => "No shared memory is currently available"@,
        Status::DSOOpen => "DSO load failed"@,
        Status::General => "Error string not specified yet"@,
        Status::BadIpAddress => "The specified IP address is invalid."@,
        Status::BadMask => "The specified network mask is invalid."@,
        Status::SymbolNotFound => "Could not find the requested symbol."@,
        Status::NotEnoughEntropy => "Not enough entropy to continue."@,
        Status::InChild => "Your code just forked, you are currently executing in the child process"@,
        Status::InParent => "Your code just forked, you are currently executing in the parent process"@,
        Status::Detach => "The specified thread is detached"@,
        Status::NotDetach => "The specified thread is not detached"@,
        Status::ChildDone => "The specified child process is done executing"@,
        Status::ChildNotDone => "The specified child process is not done executing"@,
        Status::TimeUp => "The timeout specified has expired"@,
        Status::Incomplete => "Partial results are valid but processing is incomplete"@,
        Status::BadCh => "Bad character specified on command line"@,
        Status::BadArgument => "Missing parameter for the specified command line option"@,
        Status::Eof => "End of file found"@,
        Status::NotFound => "Could not find specified socket in poll list."@,
        Status::Anonymous => "Shared memory is implemented anonymously"@,
        Status::FileBased => "Shared memory is implemented using files"@,
        Status::KeyBased => "Shared memory is implemented using a key system"@,
        Status::Initializer => "There is no error, this value signifies an initialized error code"@,
        Status::NotImplemented => "This function has not been implemented on this platform"@,
        Status::Mismatch => "passwords do not match"@,
        Status::Absolute => "The given path is absolute"@,
        Status::Relative => "The given path is relative"@,
        Status::IncompleteError => "The given path is incomplete"@,
        Status::AboveRoot => "The given path was above the root path"@,
        Status::Busy => "The given lock was busy."@,
        Status::ProcessUnknown => "The process is not recognized."@,
    }
}

/// The numeric code of a status.
pub fn code_of(s: Status) -> (r: u32)
    ensures
        r == status_code(s),
{
    match s {
        Status::Success => APR_SUCCESS,
        Status::NoStat => APR_ENOSTAT,
        Status::NoPool => APR_ENOPOOL,
        Status::BadDate => APR_EBADDATE,
        Status::InvalidSocket => APR_EINVALSOCK,
        Status::NoProcess => APR_ENOPROC,
        Status::NoTime => APR_ENOTIME,
        Status::NoDirectory => APR_ENODIR,
        Status::NoLock => APR_ENOLOCK,
        Status::NoPoll => APR_ENOPOLL,
        Status::NoSocket => APR_ENOSOCKET,
        Status::NoThread => APR_ENOTHREAD,
        Status::NoThreadKey => APR_ENOTHDKEY,
        Status::NoSharedMemoryAvailable => APR_ENOSHMAVAIL,
        Status::DSOOpen => APR_EDSOOPEN,
        Status::General => APR_EGENERAL,
        Status::BadIpAddress => APR_EBADIP,
        Status::BadMask => APR_EBADMASK,
        Status::SymbolNotFound => APR_ESYMNOTFOUND,
        Status::NotEnoughEntropy => APR_ENOTENOUGHENTROPY,
        Status::InChild => APR_INCHILD,
        Status::InParent => APR_INPARENT,
        Status::Detach => APR_DETACH,
        Status::NotDetach => APR_NOTDETACH,
        Status::ChildDone => APR_CHILD_DONE,
        Status::ChildNotDone => APR_CHILD_NOTDONE,
        Status::TimeUp => APR_TIMEUP,
        Status::Incomplete => APR_INCOMPLETE,
        Status::BadCh => APR_BADCH,
        Status::BadArgument => APR_BADARG,
        Status::Eof => APR_EOF,
        Status::NotFound => APR_NOTFOUND,
        Status::Anonymous => APR_ANONYMOUS,
        Status::FileBased => APR_FILEBASED,
        Status::KeyBased => APR_KEYBASED,
        Status::Initializer => APR_EINIT,
        Status::NotImplemented => APR_ENOTIMPL,
        Status::Mismatch => APR_EMISMATCH,
        Status::Absolute => APR_EABSOLUTE,
        Status::Relative => APR_ERELATIVE,
        Status::IncompleteError => APR_EINCOMPLETE,
        Status::AboveRoot => APR_EABOVEROOT,
        Status::Busy => APR_EBUSY,
        Status::ProcessUnknown => APR_EPROC_UNKNOWN,
    }
}

/// The status that a numeric code denotes.
pub fn status_from_code(code: u32) -> (r: Status)
    ensures
        r == status_of_code(code),
{
    match code {
        APR_SUCCESS => Status::Success,
        APR_ENOSTAT => Status::NoStat,
        APR_ENOPOOL => Status::NoPool,
        APR_EBADDATE => Status::BadDate,
        APR_EINVALSOCK => Status::InvalidSocket,
        APR_ENOPROC => Status::NoProcess,
        APR_ENOTIME => Status::NoTime,
        APR_ENODIR => Status::NoDirectory,
        APR_ENOLOCK => Status::NoLock,
        APR_ENOPOLL => Status::NoPoll,
        APR_ENOSOCKET => Status::NoSocket,
        APR_ENOTHREAD => Status::NoThread,
        APR_ENOTHDKEY => Status::NoThreadKey,
        APR_ENOSHMAVAIL => Status::NoSharedMemoryAvailable,
        APR_EDSOOPEN => Status::DSOOpen,
        APR_EGENERAL => Status::General,
        APR_EBADIP => Status::BadIpAddress,
        APR_EBADMASK => Status::BadMask,
        APR_ESYMNOTFOUND => Status::SymbolNotFound,
        APR_ENOTENOUGHENTROPY => Status::NotEnoughEntropy,
        APR_INCHILD => Status::InChild,
        APR_INPARENT => Status::InParent,
        APR_DETACH => Status::Detach,
        APR_NOTDETACH => Status::NotDetach,
        APR_CHILD_DONE => Status::ChildDone,
        APR_CHILD_NOTDONE => Status::ChildNotDone,
        APR_TIMEUP => Status::TimeUp,
        APR_INCOMPLETE => Status::Incomplete,
        APR_BADCH => Status::BadCh,
        APR_BADARG => Status::BadArgument,
        APR_EOF => Status::Eof,
        APR_NOTFOUND => Status::NotFound,
        APR_ANONYMOUS => Status::Anonymous,
        APR_FILEBASED => Status::FileBased,
        APR_KEYBASED => Status::KeyBased,
        APR_EINIT => Status::Initializer,
        APR_ENOTIMPL => Status::NotImplemented,
        APR_EMISMATCH => Status::Mismatch,
        APR_EABSOLUTE => Status::Absolute,
        APR_ERELATIVE => Status::Relative,
        APR_EINCOMPLETE => Status::IncompleteError,
        APR_EABOVEROOT => Status::AboveRoot,
        APR_EBUSY => Status::Busy,
        APR_EPROC_UNKNOWN => Status::ProcessUnknown,
        _ => Status::General,
    }
}

/// The message text of a status, without padding.
pub fn message_of(s: Status) -> (r: &'static str)
    ensures
        r@ == status_message(s),
{
    match s {
        Status::Success => "Success",
        Status::NoStat => "Could not perform a stat on the file.",
        Status::NoPool => "A new pool could not be created.",
        Status::BadDate => "An invalid date has been provided",
        Status::InvalidSocket => "An invalid socket was returned",
        Status::NoProcess => "No process was provided and one was required.",
        Status::NoTime => "No time was provided and one was required.",
        Status::NoDirectory => "No directory was provided and one was required.",
        Status::NoLock => "No lock was provided and one was required.",
        Status::NoPoll => "No poll structure was provided and one was required.",
        Status::NoSocket => "No socket was provided and one was required.",
        Status::NoThread => "No thread was provided and one was required.",
        Status::NoThreadKey => "No thread key structure was provided and one was required.",
        Status::NoSharedMemoryAvailable => "No shared memory is currently available",
        Status::DSOOpen => "DSO load failed",
        Status::General => "Error string not specified yet",
        Status::BadIpAddress => "The specified IP address is invalid.",
        Status::BadMask => "The specified network mask is invalid.",
        Status::SymbolNotFound => "Could not find the requested symbol.",
        Status::NotEnoughEntropy => "Not enough entropy to continue.",
        Status::InChild => "Your code just forked, you are currently executing in the child process",
        Status::InParent => "Your code just forked, you are currently executing in the parent process",
        Status::Detach => "The specified thread is detached",
        Status::NotDetach => "The specified thread is not detached",
        Status::ChildDone => "The specified child process is done executing",
        Status::ChildNotDone => "The specified child process is not done executing",
        Status::TimeUp => "The timeout specified has expired",
        Status::Incomplete => "Partial results are valid but processing is incomplete",
        Status::BadCh => "Bad character specified on command line",
        Status::BadArgument => "Missing parameter for the specified command line option",
        Status::Eof => "End of file found",
        Status::NotFound => "Could not find specified socket in poll list.",
        Status::Anonymous => "Shared memory is implemented anonymously",
        Status::FileBased => "Shared memory is implemented using files",
        Status::KeyBased => "Shared memory is implemented using a key system",
        Status::Initializer => "There is no error, this value signifies an initialized error code",
        Status::NotImplemented => "This function has not been implemented on this platform",
        Status::Mismatch => "passwords do not match",
        Status::Absolute => "The given path is absolute",
        Status::Relative => "The given path is relative",
        Status::IncompleteError => "The given path is incomplete",
        Status::AboveRoot => "The given path was above the root path",
        Status::Busy => "The given lock was busy.",
        Status::ProcessUnknown => "The process is not recognized.",
    }
}

/// Length of the message buffer that status messages are written into.
pub const STRERROR_BUF_LEN: usize = 1024;

/// A status message in its fixed-size buffer: the message, then NUL
/// characters up to the length of the buffer.
pub open spec fn padded_message(s: Status) -> Seq<char> {
    status_message(s) + Seq::new((1024 - status_message(s).len()) as nat, |i: int| '\0')
}

/// The text that displays a status: the padded message, a space, and the
/// numeric code in parentheses.
pub open spec fn display_text(s: Status) -> Seq<char> {
    padded_message(s) + " ("@ + spec_decimal(status_code(s) as nat) + ")"@
}

impl Status {
    /// Check if this status represents a success
    pub fn is_success(&self) -> (r: bool)
        ensures
            r == (*self == Status::Success),
    {
        match self {
            Status::Success => true,
            _ => false,
        }
    }

    /// Check if this status represents an error
    pub fn is_error(&self) -> (r: bool)
        ensures
            r == (*self != Status::Success),
    {
        !self.is_success()
    }

    /// Get the raw OS error code, if available: the offset of the code past
    /// the start of the operating-system range.
    pub fn raw_os_error(&self) -> (r: Option<i32>)
        ensures
            r == (if *self != Status::Success && status_code(*self) >= APR_OS_START_SYSERR {
                Some((status_code(*self) - APR_OS_START_SYSERR) as i32)
            } else {
                None::<i32>
            }),
    {
        let status_code: u32 = code_of(*self);
        match self {
            Status::Success => None,
            _ => {
                if status_code >= APR_OS_START_SYSERR {
                    Some((status_code - APR_OS_START_SYSERR) as i32)
                } else {
                    None
                }
            },
        }
    }

    /// Get the error message for this status code, as it stands in a
    /// buffer of 1024 bytes: the message followed by NUL characters.
    pub fn strerror(&self) -> (r: String)
        ensures
            r@ == padded_message(*self),
    {
        let msg = message_of(*self);
        let mut r = String::from_str(msg);
        proof {
            reveal_strlit("Success");
            assert(status_message(*self).len() <= 1024) by {
                lemma_message_short(*self);
            }
        }
        let n = msg.unicode_len();
        let mut i: usize = n;
        while i < STRERROR_BUF_LEN
            invariant
                n == status_message(*self).len(),
                n <= i <= 1024,
                r@ == status_message(*self) + Seq::new((i - n) as nat, |k: int| '\0'),
            decreases 1024 - i,
        {
            string_push(&mut r, '\0');
            proof {
                assert(Seq::new((i + 1 - n) as nat, |k: int| '\0') =~= Seq::new((i - n) as nat, |k: int| '\0').push('\0'));
            }
            i = i + 1;
        }
        r
    }

    /// The text that displays this status: its message buffer, then the
    /// numeric code in parentheses.
    pub fn to_display_string(&self) -> (r: String)
        ensures
            r@ == display_text(*self),
    {
        let mut r = self.strerror();
        r.append(" (");
        push_decimal(&mut r, code_of(*self) as u64);
        r.append(")");
        r
    }
}

/// Every status message fits in the message buffer.
pub proof fn lemma_message_short(s: Status)
    ensures
        status_message(s).len() <= 1024,
{
    match s {
        Status::Success => {
            reveal_strlit("Success");
        },
        Status::NoStat => {
            reveal_strlit("Could not perform a stat on the file.");
        },
        Status::NoPool => {
            reveal_strlit("A new pool could not be created.");
        },
        Status::BadDate => {
            reveal_strlit("An invalid date has been provided");
        },
        Status::InvalidSocket => {
            reveal_strlit("An invalid socket was returned");
        },
        Status::NoProcess => {
            reveal_strlit("No process was provided and one was required.");
        },
        Status::NoTime => {
            reveal_strlit("No time was provided and one was required.");
        },
        Status::NoDirectory => {
            reveal_strlit("No directory was provided and one was required.");
        },
        Status::NoLock => {
            reveal_strlit("No lock was provided and one was required.");
        },
        Status::NoPoll => {
            reveal_strlit("No poll structure was provided and one was required.");
        },
        Status::NoSocket => {
            reveal_strlit("No socket was provided and one was required.");
        },
        Status::NoThread => {
            reveal_strlit("No thread was provided and one was required.");
        },
        Status::NoThreadKey => {
            reveal_strlit("No thread key structure was provided and one was required.");
        },
        Status::NoSharedMemoryAvailable => {
            reveal_strlit("No shared memory is currently available");
        },
        Status::DSOOpen => {
            reveal_strlit("DSO load failed");
        },
        Status::General => {
            reveal_strlit("Error string not specified yet");
        },
        Status::BadIpAddress => {
            reveal_strlit("The specified IP address is invalid.");
        },
        Status::BadMask => {
            reveal_strlit("The specified network mask is invalid.");
        },
        Status::SymbolNotFound => {
            reveal_strlit("Could not find the requested symbol.");
        },
        Status::NotEnoughEntropy => {
            reveal_strlit("Not enough entropy to continue.");
        },
        Status::InChild => {
            reveal_strlit("Your code just forked, you are currently executing in the child process");
        },
        Status::InParent => {
            reveal_strlit("Your code just forked, you are currently executing in the parent process");
        },
        Status::Detach => {
            reveal_strlit("The specified thread is detached");
        },
        Status::NotDetach => {
            reveal_strlit("The specified thread is not detached");
        },
        Status::ChildDone => {
            reveal_strlit("The specified child process is done executing");
        },
        Status::ChildNotDone => {
            reveal_strlit("The specified child process is not done executing");
        },
        Status::TimeUp => {
            reveal_strlit("The timeout specified has expired");
        },
        Status::Incomplete => {
            reveal_strlit("Partial results are valid but processing is incomplete");
        },
        Status::BadCh => {
            reveal_strlit("Bad character specified on command line");
        },
        Status::BadArgument => {
            reveal_strlit("Missing parameter for the specified command line option");
        },
        Status::Eof => {
            reveal_strlit("End of file found");
        },
        Status::NotFound => {
            reveal_strlit("Could not find specified socket in poll list.");
        },
        Status::Anonymous => {
            reveal_strlit("Shared memory is implemented anonymously");
        },
        Status::FileBased => {
            reveal_strlit("Shared memory is implemented using files");
        },
        Status::KeyBased => {
            reveal_strlit("Shared memory is implemented using a key system");
        },
        Status::Initializer => {
            reveal_strlit("There is no error, this value signifies an initialized error code");
        },
        Status::NotImplemented => {
            reveal_strlit("This function has not been implemented on this platform");
        },
        Status::Mismatch => {
            reveal_strlit("passwords do not match");
        },
        Status::Absolute => {
            reveal_strlit("The given path is absolute");
        },
        Status::Relative => {
            reveal_strlit("The given path is relative");
        },
        Status::IncompleteError => {
            reveal_strlit("The given path is incomplete");
        },
        Status::AboveRoot => {
            reveal_strlit("The given path was above the root path");
        },
        Status::Busy => {
            reveal_strlit("The given lock was busy.");
        },
        Status::ProcessUnknown => {
            reveal_strlit("The process is not recognized.");
        },
    }
}

impl From<u32> for Status {
    fn from(status: u32) -> (r: Self) {
        status_from_code(status)
    }
}

impl FromSpecImpl<u32> for Status {
    open spec fn obeys_from_spec() -> bool {
        true
    }

    open spec fn from_spec(v: u32) -> Self {
        status_of_code(v)
    }
}

impl From<Status> for u32 {
    fn from(status: Status) -> (r: Self) {
        code_of(status)
    }
}

impl FromSpecImpl<Status> for u32 {
    open spec fn obeys_from_spec() -> bool {
        true
    }

    open spec fn from_spec(v: Status) -> Self {
        status_code(v)
    }
}

impl From<i32> for Status {
    fn from(status: i32) -> (r: Self) {
        status_from_code(status as u32)
    }
}

impl FromSpecImpl<i32> for Status {
    open spec fn obeys_from_spec() -> bool {
        true
    }

    open spec fn from_spec(v: i32) -> Self {
        status_of_code(v as u32)
    }
}

/// Generic helper to convert status codes to results: zero is success, any
/// other code is the error that it denotes.
pub fn apr_result(status_code: i32) -> (r: Result<(), Status>)
    ensures
        status_code == 0 ==> r == Ok::<(), Status>(()),
        status_code != 0 ==> r == Err::<(), Status>(status_of_code(status_code as u32)),
{
    if status_code == APR_SUCCESS as i32 {
        Ok(())
    } else {
        Err(status_from_code(status_code as u32))
    }
}

/// Converting a status to its code and back gives the same status.
pub proof fn law_status_code_roundtrip(s: Status)
    ensures
        status_of_code(status_code(s)) == s,
{
}

/// Distinct statuses have distinct codes.
pub proof fn law_status_code_injective(a: Status, b: Status)
    requires
        status_code(a) == status_code(b),
    ensures
        a == b,
{
    law_status_code_roundtrip(a);
    law_status_code_roundtrip(b);
}

/// No status carries an operating-system error code.
pub proof fn law_status_not_os_error(s: Status)
    ensures
        status_code(s) < APR_OS_START_SYSERR,
{
}

} // verus!
