//! Error numbers shared by the kernel and its users, and their conversion to and
//! from the signed integers that system calls return.

use vstd::prelude::*;

use crate::text::push_str;

verus! {

/// Errno definitions as used by the antimatter operating system.
#[derive(Debug, Clone, Copy, PartialEq, Eq, Structural)]
pub enum Errno {
    /// Operation not permitted
    EPERM,
    /// No such file or directory
    ENOENT,
    /// No such process
    ESRCH,
    /// Interrupted system call
    EINTR,
    /// I/O error
    EIO,
    /// No such device or address
    ENXIO,
    /// Argument list too long
    E2BIG,
    /// Exec format error
    ENOEXEC,
    /// Bad file number
    EBADF,
    /// No child processes
    ECHILD,
    /// Try again
    EAGAIN,
    /// Out of memory
    ENOMEM,
    /// Permission denied
    EACCES,
    /// Bad address
    EFAULT,
    /// Block device required
    ENOTBLK,
    /// Device or resource busy
    EBUSY,
    /// File exists
    EEXIST,
    /// Cross-device link
    EXDEV,
    /// No such device
    ENODEV,
    /// Not a directory
    ENOTDIR,
    /// Is a directory
    EISDIR,
    /// Invalid argument
    EINVAL,
    /// File table overflow
    ENFILE,
    /// Too many open files
    EMFILE,
    /// Not a typewriter
    ENOTTY,
    /// Text file busy
    ETXTBSY,
    /// File too large
    EFBIG,
    /// No space left on device
    ENOSPC,
    /// Illegal seek
    ESPIPE,
    /// Read-only file system
    EROFS,
    /// Too many links
    EMLINK,
    /// Broken pipe
    EPIPE,
    /// Math argument out of domain of func
    EDOM,
    /// Math result not representable
    ERANGE,
    /// Resource deadlock would occur
    EDEADLK,
    /// File name too long
    ENAMETOOLONG,
    /// No locks available
    ENOLCK,
    /// Invalid system call number
    ENOSYS,
    /// Directory not empty
    ENOTEMPTY,
    /// Too many symbolic links encountered
    ELOOP,
    /// Not supported
    ENOTSUP,
    /// No message of desired type
    ENOMSG,
    /// Identifier removed
    EIDRM,
    /// Channel number out of range
    ECHRNG,
    /// Level 2 not synchronized
    EL2NSYNC,
    /// Level 3 halted
    EL3HLT,
    /// Level 3 reset
    EL3RST,
    /// Link number out of range
    ELNRNG,
    /// Protocol driver not attached
    EUNATCH,
    /// No CSI structure available
    ENOCSI,
    /// Level 2 halted
    EL2HLT,
    /// Invalid exchange
    EBADE,
    /// Invalid request descriptor
    EBADR,
    /// Exchange full
    EXFULL,
    /// No anode
    ENOANO,
    /// Invalid request code
    EBADRQC,
    /// Invalid slot
    EBADSLT,
    /// Bad font file format
    EBFONT,
    /// Device not a stream
    ENOSTR,
    /// No data available
    ENODATA,
    /// Timer expired
    ETIME,
    /// Out of streams resources
    ENOSR,
    /// Machine is not on the network
    ENONET,
    /// Package not installed
    ENOPKG,
    /// Object is remote
    EREMOTE,
    /// Link has been severed
    ENOLINK,
    /// Advertise error
    EADV,
    /// Srmount error
    ESRMNT,
    /// Communication error on send
    ECOMM,
    /// Protocol error
    EPROTO,
    /// Multihop attempted
    EMULTIHOP,
    /// RFS specific error
    EDOTDOT,
    /// Not a data message
    EBADMSG,
    /// Value too large for defined data type
    EOVERFLOW,
    /// Name not unique on network
    ENOTUNIQ,
    /// File descriptor in bad state
    EBADFD,
    /// Remote address changed
    EREMCHG,
    /// Can not access a needed shared library
    ELIBACC,
    /// Accessing a corrupted shared library
    ELIBBAD,
    /// .lib section in a.out corrupted
    ELIBSCN,
    /// Attempting to link in too many shared libraries
    ELIBMAX,
    /// Cannot exec a shared library directly
    ELIBEXEC,
    /// Illegal byte sequence
    EILSEQ,
    /// Interrupted system call should be restarted
    ERESTART,
    /// Streams pipe error
    ESTRPIPE,
    /// Too many users
    EUSERS,
    /// Socket operation on non-socket
    ENOTSOCK,
    /// Destination address required
    EDESTADDRREQ,
    /// Message too long
    EMSGSIZE,
    /// Protocol wrong type for socket
    EPROTOTYPE,
    /// Protocol not available
    ENOPROTOOPT,
    /// Protocol not supported
    EPROTONOSUPPORT,
    /// Socket type not supported
    ESOCKTNOSUPPORT,
    /// Operation not supported on transport endpoint
    EOPNOTSUPP,
    /// Protocol family not supported
    EPFNOSUPPORT,
    /// Address family not supported by protocol
    EAFNOSUPPORT,
    /// Address already in use
    EADDRINUSE,
    /// Cannot assign requested address
    EADDRNOTAVAIL,
    /// Network is down
    ENETDOWN,
    /// Network is unreachable
    ENETUNREACH,
    /// Network dropped connection because of reset
    ENETRESET,
    /// Software caused connection abort
    ECONNABORTED,
    /// Connection reset by peer
    ECONNRESET,
    /// No buffer space available
    ENOBUFS,
    /// Transport endpoint is already connected
    EISCONN,
    /// Transport endpoint is not connected
    ENOTCONN,
    /// Cannot send after transport endpoint shutdown
    ESHUTDOWN,
    /// Too many references: cannot splice
    ETOOMANYREFS,
    /// Connection (or other operation) timed out
    ETIMEDOUT,
    /// Connection refused
    ECONNREFUSED,
    /// Host is down
    EHOSTDOWN,
    /// No route to host
    EHOSTUNREACH,
    /// Operation already in progress
    EALREADY,
    /// Operation now in progress
    EINPROGRESS,
    /// Stale file handle
    ESTALE,
    /// Structure needs cleaning
    EUCLEAN,
    /// Not a XENIX named type file
    ENOTNAM,
    /// No XENIX semaphores available
    ENAVAIL,
    /// Is a named type file
    EISNAM,
    /// Remote I/O error
    EREMOTEIO,
    /// Quota exceeded
    EDQUOT,
    /// No medium found
    ENOMEDIUM,
    /// Wrong medium type
    EMEDIUMTYPE,
    /// Operation Canceled
    ECANCELED,
    /// Required key not available
    ENOKEY,
    /// Key has expired
    EKEYEXPIRED,
    /// Key has been revoked
    EKEYREVOKED,
    /// Key was rejected by service
    EKEYREJECTED,
    /// Owner died
    EOWNERDEAD,
    /// State not recoverable
    ENOTRECOVERABLE,
    /// Operation not possible due to RF-kill
    ERFKILL,
    /// Memory page has hardware error
    EHWPOISON,
    /// Assertion failed
    EASSERT,
}

/// Result type whose error is an [`Errno`].
pub type EResult<T> = Result<T, Errno>;

/// Whether `c` is the number of some [`Errno`]: 1 to 134, 58 excepted.
pub open spec fn is_errno_code(c: int) -> bool {
    1 <= c <= 134 && c != 58
}

/// The error that a number names, if any.
pub open spec fn errno_of_code(c: int) -> Option<Errno> {
    if c == 1 {
        Some(Errno::EPERM)
    } else if c == 2 {
        Some(Errno::ENOENT)
    } else if c == 3 {
        Some(Errno::ESRCH)
    } else if c == 4 {
        Some(Errno::EINTR)
    } else if c == 5 {
        Some(Errno::EIO)
    } else if c == 6 {
        Some(Errno::ENXIO)
    } else if c == 7 {
        Some(Errno::E2BIG)
    } else if c == 8 {
        Some(Errno::ENOEXEC)
    } else if c == 9 {
        Some(Errno::EBADF)
    } else if c == 10 {
        Some(Errno::ECHILD)
    } else if c == 11 {
        Some(Errno::EAGAIN)
    } else if c == 12 {
        Some(Errno::ENOMEM)
    } else if c == 13 {
        Some(Errno::EACCES)
    } else if c == 14 {
        Some(Errno::EFAULT)
    } else if c == 15 {
        Some(Errno::ENOTBLK)
    } else if c == 16 {
        Some(Errno::EBUSY)
    } else if c == 17 {
        Some(Errno::EEXIST)
    } else if c == 18 {
        Some(Errno::EXDEV)
    } else if c == 19 {
        Some(Errno::ENODEV)
    } else if c == 20 {
        Some(Errno::ENOTDIR)
    } else if c == 21 {
        Some(Errno::EISDIR)
    } else if c == 22 {
        Some(Errno::EINVAL)
    } else if c == 23 {
        Some(Errno::ENFILE)
    } else if c == 24 {
        Some(Errno::EMFILE)
    } else if c == 25 {
        Some(Errno::ENOTTY)
    } else if c == 26 {
        Some(Errno::ETXTBSY)
    } else if c == 27 {
        Some(Errno::EFBIG)
    } else if c == 28 {
        Some(Errno::ENOSPC)
    } else if c == 29 {
        Some(Errno::ESPIPE)
    } else if c == 30 {
        Some(Errno::EROFS)
    } else if c == 31 {
        Some(Errno::EMLINK)
    } else if c == 32 {
        Some(Errno::EPIPE)
    } else if c == 33 {
        Some(Errno::EDOM)
    } else if c == 34 {
        Some(Errno::ERANGE)
    } else if c == 35 {
        Some(Errno::EDEADLK)
    } else if c == 36 {
        Some(Errno::ENAMETOOLONG)
    } else if c == 37 {
        Some(Errno::ENOLCK)
    } else if c == 38 {
        Some(Errno::ENOSYS)
    } else if c == 39 {
        Some(Errno::ENOTEMPTY)
    } else if c == 40 {
        Some(Errno::ELOOP)
    } else if c == 41 {
        Some(Errno::ENOTSUP)
    } else if c == 42 {
        Some(Errno::ENOMSG)
    } else if c == 43 {
        Some(Errno::EIDRM)
    } else if c == 44 {
        Some(Errno::ECHRNG)
    } else if c == 45 {
        Some(Errno::EL2NSYNC)
    } else if c == 46 {
        Some(Errno::EL3HLT)
    } else if c == 47 {
        Some(Errno::EL3RST)
    } else if c == 48 {
        Some(Errno::ELNRNG)
    } else if c == 49 {
        Some(Errno::EUNATCH)
    } else if c == 50 {
        Some(Errno::ENOCSI)
    } else if c == 51 {
        Some(Errno::EL2HLT)
    } else if c == 52 {
        Some(Errno::EBADE)
    } else if c == 53 {
        Some(Errno::EBADR)
    } else if c == 54 {
        Some(Errno::EXFULL)
    } else if c == 55 {
        Some(Errno::ENOANO)
    } else if c == 56 {
        Some(Errno::EBADRQC)
    } else if c == 57 {
        Some(Errno::EBADSLT)
    } else if c == 59 {
        Some(Errno::EBFONT)
    } else if c == 60 {
        Some(Errno::ENOSTR)
    } else if c == 61 {
        Some(Errno::ENODATA)
    } else if c == 62 {
        Some(Errno::ETIME)
    } else if c == 63 {
        Some(Errno::ENOSR)
    } else if c == 64 {
        Some(Errno::ENONET)
    } else if c == 65 {
        Some(Errno::ENOPKG)
    } else if c == 66 {
        Some(Errno::EREMOTE)
    } else if c == 67 {
        Some(Errno::ENOLINK)
    } else if c == 68 {
        Some(Errno::EADV)
    } else if c == 69 {
        Some(Errno::ESRMNT)
    } else if c == 70 {
        Some(Errno::ECOMM)
    } else if c == 71 {
        Some(Errno::EPROTO)
    } else if c == 72 {
        Some(Errno::EMULTIHOP)
    } else if c == 73 {
        Some(Errno::EDOTDOT)
    } else if c == 74 {
        Some(Errno::EBADMSG)
    } else if c == 75 {
        Some(Errno::EOVERFLOW)
    } else if c == 76 {
        Some(Errno::ENOTUNIQ)
    } else if c == 77 {
        Some(Errno::EBADFD)
    } else if c == 78 {
        Some(Errno::EREMCHG)
    } else if c == 79 {
        Some(Errno::ELIBACC)
    } else if c == 80 {
        Some(Errno::ELIBBAD)
    } else if c == 81 {
        Some(Errno::ELIBSCN)
    } else if c == 82 {
        Some(Errno::ELIBMAX)
    } else if c == 83 {
        Some(Errno::ELIBEXEC)
    } else if c == 84 {
        Some(Errno::EILSEQ)
    } else if c == 85 {
        Some(Errno::ERESTART)
    } else if c == 86 {
        Some(Errno::ESTRPIPE)
    } else if c == 87 {
        Some(Errno::EUSERS)
    } else if c == 88 {
        Some(Errno::ENOTSOCK)
    } else if c == 89 {
        Some(Errno::EDESTADDRREQ)
    } else if c == 90 {
        Some(Errno::EMSGSIZE)
    } else if c == 91 {
        Some(Errno::EPROTOTYPE)
    } else if c == 92 {
        Some(Errno::ENOPROTOOPT)
    } else if c == 93 {
        Some(Errno::EPROTONOSUPPORT)
    } else if c == 94 {
        Some(Errno::ESOCKTNOSUPPORT)
    } else if c == 95 {
        Some(Errno::EOPNOTSUPP)
    } else if c == 96 {
        Some(Errno::EPFNOSUPPORT)
    } else if c == 97 {
        Some(Errno::EAFNOSUPPORT)
    } else if c == 98 {
        Some(Errno::EADDRINUSE)
    } else if c == 99 {
        Some(Errno::EADDRNOTAVAIL)
    } else if c == 100 {
        Some(Errno::ENETDOWN)
    } else if c == 101 {
        Some(Errno::ENETUNREACH)
    } else if c == 102 {
        Some(Errno::ENETRESET)
    } else if c == 103 {
        Some(Errno::ECONNABORTED)
    } else if c == 104 {
        Some(Errno::ECONNRESET)
    } else if c == 105 {
        Some(Errno::ENOBUFS)
    } else if c == 106 {
        Some(Errno::EISCONN)
    } else if c == 107 {
        Some(Errno::ENOTCONN)
    } else if c == 108 {
        Some(Errno::ESHUTDOWN)
    } else if c == 109 {
        Some(Errno::ETOOMANYREFS)
    } else if c == 110 {
        Some(Errno::ETIMEDOUT)
    } else if c == 111 {
        Some(Errno::ECONNREFUSED)
    } else if c == 112 {
        Some(Errno::EHOSTDOWN)
    } else if c == 113 {
        Some(Errno::EHOSTUNREACH)
    } else if c == 114 {
        Some(Errno::EALREADY)
    } else if c == 115 {
        Some(Errno::EINPROGRESS)
    } else if c == 116 {
        Some(Errno::ESTALE)
    } else if c == 117 {
        Some(Errno::EUCLEAN)
    } else if c == 118 {
        Some(Errno::ENOTNAM)
    } else if c == 119 {
        Some(Errno::ENAVAIL)
    } else if c == 120 {
        Some(Errno::EISNAM)
    } else if c == 121 {
        Some(Errno::EREMOTEIO)
    } else if c == 122 {
        Some(Errno::EDQUOT)
    } else if c == 123 {
        Some(Errno::ENOMEDIUM)
    } else if c == 124 {
        Some(Errno::EMEDIUMTYPE)
    } else if c == 125 {
        Some(Errno::ECANCELED)
    } else if c == 126 {
        Some(Errno::ENOKEY)
    } else if c == 127 {
        Some(Errno::EKEYEXPIRED)
    } else if c == 128 {
        Some(Errno::EKEYREVOKED)
    } else if c == 129 {
        Some(Errno::EKEYREJECTED)
    } else if c == 130 {
        Some(Errno::EOWNERDEAD)
    } else if c == 131 {
        Some(Errno::ENOTRECOVERABLE)
    } else if c == 132 {
        Some(Errno::ERFKILL)
    } else if c == 133 {
        Some(Errno::EHWPOISON)
    } else if c == 134 {
        Some(Errno::EASSERT)
    } else {
        None
    }
}

impl Errno {
    /// The number of this error.
    pub open spec fn spec_code(self) -> int {
        match self {
            Errno::EPERM => 1,
            Errno::ENOENT => 2,
            Errno::ESRCH => 3,
            Errno::EINTR => 4,
            Errno::EIO => 5,
            Errno::ENXIO => 6,
            Errno::E2BIG => 7,
            Errno::ENOEXEC => 8,
            Errno::EBADF => 9,
            Errno::ECHILD => 10,
            Errno::EAGAIN => 11,
            Errno::ENOMEM => 12,
            Errno::EACCES => 13,
            Errno::EFAULT => 14,
            Errno::ENOTBLK => 15,
            Errno::EBUSY => 16,
            Errno::EEXIST => 17,
            Errno::EXDEV => 18,
            Errno::ENODEV => 19,
            Errno::ENOTDIR => 20,
            Errno::EISDIR => 21,
            Errno::EINVAL => 22,
            Errno::ENFILE => 23,
            Errno::EMFILE => 24,
            Errno::ENOTTY => 25,
            Errno::ETXTBSY => 26,
            Errno::EFBIG => 27,
            Errno::ENOSPC => 28,
            Errno::ESPIPE => 29,
            Errno::EROFS => 30,
            Errno::EMLINK => 31,
            Errno::EPIPE => 32,
            Errno::EDOM => 33,
            Errno::ERANGE => 34,
            Errno::EDEADLK => 35,
            Errno::ENAMETOOLONG => 36,
            Errno::ENOLCK => 37,
            Errno::ENOSYS => 38,
            Errno::ENOTEMPTY => 39,
            Errno::ELOOP => 40,
            Errno::ENOTSUP => 41,
            Errno::ENOMSG => 42,
            Errno::EIDRM => 43,
            Errno::ECHRNG => 44,
            Errno::EL2NSYNC => 45,
            Errno::EL3HLT => 46,
            Errno::EL3RST => 47,
            Errno::ELNRNG => 48,
            Errno::EUNATCH => 49,
            Errno::ENOCSI => 50,
            Errno::EL2HLT => 51,
            Errno::EBADE => 52,
            Errno::EBADR => 53,
            Errno::EXFULL => 54,
            Errno::ENOANO => 55,
            Errno::EBADRQC => 56,
            Errno::EBADSLT => 57,
            Errno::EBFONT => 59,
            Errno::ENOSTR => 60,
            Errno::ENODATA => 61,
            Errno::ETIME => 62,
            Errno::ENOSR => 63,
            Errno::ENONET => 64,
            Errno::ENOPKG => 65,
            Errno::EREMOTE => 66,
            Errno::ENOLINK => 67,
            Errno::EADV => 68,
            Errno::ESRMNT => 69,
            Errno::ECOMM => 70,
            Errno::EPROTO => 71,
            Errno::EMULTIHOP => 72,
            Errno::EDOTDOT => 73,
            Errno::EBADMSG => 74,
            Errno::EOVERFLOW => 75,
            Errno::ENOTUNIQ => 76,
            Errno::EBADFD => 77,
            Errno::EREMCHG => 78,
            Errno::ELIBACC => 79,
            Errno::ELIBBAD => 80,
            Errno::ELIBSCN => 81,
            Errno::ELIBMAX => 82,
            Errno::ELIBEXEC => 83,
            Errno::EILSEQ => 84,
            Errno::ERESTART => 85,
            Errno::ESTRPIPE => 86,
            Errno::EUSERS => 87,
            Errno::ENOTSOCK => 88,
            Errno::EDESTADDRREQ => 89,
            Errno::EMSGSIZE => 90,
            Errno::EPROTOTYPE => 91,
            Errno::ENOPROTOOPT => 92,
            Errno::EPROTONOSUPPORT => 93,
            Errno::ESOCKTNOSUPPORT => 94,
            Errno::EOPNOTSUPP => 95,
            Errno::EPFNOSUPPORT => 96,
            Errno::EAFNOSUPPORT => 97,
            Errno::EADDRINUSE => 98,
            Errno::EADDRNOTAVAIL => 99,
            Errno::ENETDOWN => 100,
            Errno::ENETUNREACH => 101,
            Errno::ENETRESET => 102,
            Errno::ECONNABORTED => 103,
            Errno::ECONNRESET => 104,
            Errno::ENOBUFS => 105,
            Errno::EISCONN => 106,
            Errno::ENOTCONN => 107,
            Errno::ESHUTDOWN => 108,
            Errno::ETOOMANYREFS => 109,
            Errno::ETIMEDOUT => 110,
            Errno::ECONNREFUSED => 111,
            Errno::EHOSTDOWN => 112,
            Errno::EHOSTUNREACH => 113,
            Errno::EALREADY => 114,
            Errno::EINPROGRESS => 115,
            Errno::ESTALE => 116,
            Errno::EUCLEAN => 117,
            Errno::ENOTNAM => 118,
            Errno::ENAVAIL => 119,
            Errno::EISNAM => 120,
            Errno::EREMOTEIO => 121,
            Errno::EDQUOT => 122,
            Errno::ENOMEDIUM => 123,
            Errno::EMEDIUMTYPE => 124,
            Errno::ECANCELED => 125,
            Errno::ENOKEY => 126,
            Errno::EKEYEXPIRED => 127,
            Errno::EKEYREVOKED => 128,
            Errno::EKEYREJECTED => 129,
            Errno::EOWNERDEAD => 130,
            Errno::ENOTRECOVERABLE => 131,
            Errno::ERFKILL => 132,
            Errno::EHWPOISON => 133,
            Errno::EASSERT => 134,
        }
    }

    /// The symbolic name of this error.
    pub open spec fn spec_name(self) -> Seq<char> {
        match self {
            Errno::EPERM => "EPERM"@,
            Errno::ENOENT => "ENOENT"@,
            Errno::ESRCH => "ESRCH"@,
            Errno::EINTR => "EINTR"@,
            Errno::EIO => "EIO"@,
            Errno::ENXIO => "ENXIO"@,
            Errno::E2BIG => "E2BIG"@,
            Errno::ENOEXEC => "ENOEXEC"@,
            Errno::EBADF => "EBADF"@,
            Errno::ECHILD => "ECHILD"@,
            Errno::EAGAIN => "EAGAIN"@,
            Errno::ENOMEM => "ENOMEM"@,
            Errno::EACCES => "EACCES"@,
            Errno::EFAULT => "EFAULT"@,
            Errno::ENOTBLK => "ENOTBLK"@,
            Errno::EBUSY => "EBUSY"@,
            Errno::EEXIST => "EEXIST"@,
            Errno::EXDEV => "EXDEV"@,
            Errno::ENODEV => "ENODEV"@,
            Errno::ENOTDIR => "ENOTDIR"@,
            Errno::EISDIR => "EISDIR"@,
            Errno::EINVAL => "EINVAL"@,
            Errno::ENFILE => "ENFILE"@,
            Errno::EMFILE => "EMFILE"@,
            Errno::ENOTTY => "ENOTTY"@,
            Errno::ETXTBSY => "ETXTBSY"@,
            Errno::EFBIG => "EFBIG"@,
            Errno::ENOSPC => "ENOSPC"@,
            Errno::ESPIPE => "ESPIPE"@,
            Errno::EROFS => "EROFS"@,
            Errno::EMLINK => "EMLINK"@,
            Errno::EPIPE => "EPIPE"@,
            Errno::EDOM => "EDOM"@,
            Errno::ERANGE => "ERANGE"@,
            Errno::EDEADLK => "EDEADLK"@,
            Errno::ENAMETOOLONG => "ENAMETOOLONG"@,
            Errno::ENOLCK => "ENOLCK"@,
            Errno::ENOSYS => "ENOSYS"@,
            Errno::ENOTEMPTY => "ENOTEMPTY"@,
            Errno::ELOOP => "ELOOP"@,
            Errno::ENOTSUP => "ENOTSUP"@,
            Errno::ENOMSG => "ENOMSG"@,
            Errno::EIDRM => "EIDRM"@,
            Errno::ECHRNG => "ECHRNG"@,
            Errno::EL2NSYNC => "EL2NSYNC"@,
            Errno::EL3HLT => "EL3HLT"@,
            Errno::EL3RST => "EL3RST"@,
            Errno::ELNRNG => "ELNRNG"@,
            Errno::EUNATCH => "EUNATCH"@,
            Errno::ENOCSI => "ENOCSI"@,
            Errno::EL2HLT => "EL2HLT"@,
            Errno::EBADE => "EBADE"@,
            Errno::EBADR => "EBADR"@,
            Errno::EXFULL => "EXFULL"@,
            Errno::ENOANO => "ENOANO"@,
            Errno::EBADRQC => "EBADRQC"@,
            Errno::EBADSLT => "EBADSLT"@,
            Errno::EBFONT => "EBFONT"@,
            Errno::ENOSTR => "ENOSTR"@,
            Errno::ENODATA => "ENODATA"@,
            Errno::ETIME => "ETIME"@,
            Errno::ENOSR => "ENOSR"@,
            Errno::ENONET => "ENONET"@,
            Errno::ENOPKG => "ENOPKG"@,
            Errno::EREMOTE => "EREMOTE"@,
            Errno::ENOLINK => "ENOLINK"@,
            Errno::EADV => "EADV"@,
            Errno::ESRMNT => "ESRMNT"@,
            Errno::ECOMM => "ECOMM"@,
            Errno::EPROTO => "EPROTO"@,
            Errno::EMULTIHOP => "EMULTIHOP"@,
            Errno::EDOTDOT => "EDOTDOT"@,
            Errno::EBADMSG => "EBADMSG"@,
            Errno::EOVERFLOW => "EOVERFLOW"@,
            Errno::ENOTUNIQ => "ENOTUNIQ"@,
            Errno::EBADFD => "EBADFD"@,
            Errno::EREMCHG => "EREMCHG"@,
            Errno::ELIBACC => "ELIBACC"@,
            Errno::ELIBBAD => "ELIBBAD"@,
            Errno::ELIBSCN => "ELIBSCN"@,
            Errno::ELIBMAX => "ELIBMAX"@,
            Errno::ELIBEXEC => "ELIBEXEC"@,
            Errno::EILSEQ => "EILSEQ"@,
            Errno::ERESTART => "ERESTART"@,
            Errno::ESTRPIPE => "ESTRPIPE"@,
            Errno::EUSERS => "EUSERS"@,
            Errno::ENOTSOCK => "ENOTSOCK"@,
            Errno::EDESTADDRREQ => "EDESTADDRREQ"@,
            Errno::EMSGSIZE => "EMSGSIZE"@,
            Errno::EPROTOTYPE => "EPROTOTYPE"@,
            Errno::ENOPROTOOPT => "ENOPROTOOPT"@,
            Errno::EPROTONOSUPPORT => "EPROTONOSUPPORT"@,
            Errno::ESOCKTNOSUPPORT => "ESOCKTNOSUPPORT"@,
            Errno::EOPNOTSUPP => "EOPNOTSUPP"@,
            Errno::EPFNOSUPPORT => "EPFNOSUPPORT"@,
            Errno::EAFNOSUPPORT => "EAFNOSUPPORT"@,
            Errno::EADDRINUSE => "EADDRINUSE"@,
            Errno::EADDRNOTAVAIL => "EADDRNOTAVAIL"@,
            Errno::ENETDOWN => "ENETDOWN"@,
            Errno::ENETUNREACH => "ENETUNREACH"@,
            Errno::ENETRESET => "ENETRESET"@,
            Errno::ECONNABORTED => "ECONNABORTED"@,
            Errno::ECONNRESET => "ECONNRESET"@,
            Errno::ENOBUFS => "ENOBUFS"@,
            Errno::EISCONN => "EISCONN"@,
            Errno::ENOTCONN => "ENOTCONN"@,
            Errno::ESHUTDOWN => "ESHUTDOWN"@,
            Errno::ETOOMANYREFS => "ETOOMANYREFS"@,
            Errno::ETIMEDOUT => "ETIMEDOUT"@,
            Errno::ECONNREFUSED => "ECONNREFUSED"@,
            Errno::EHOSTDOWN => "EHOSTDOWN"@,
            Errno::EHOSTUNREACH => "EHOSTUNREACH"@,
            Errno::EALREADY => "EALREADY"@,
            Errno::EINPROGRESS => "EINPROGRESS"@,
            Errno::ESTALE => "ESTALE"@,
            Errno::EUCLEAN => "EUCLEAN"@,
            Errno::ENOTNAM => "ENOTNAM"@,
            Errno::ENAVAIL => "ENAVAIL"@,
            Errno::EISNAM => "EISNAM"@,
            Errno::EREMOTEIO => "EREMOTEIO"@,
            Errno::EDQUOT => "EDQUOT"@,
            Errno::ENOMEDIUM => "ENOMEDIUM"@,
            Errno::EMEDIUMTYPE => "EMEDIUMTYPE"@,
            Errno::ECANCELED => "ECANCELED"@,
            Errno::ENOKEY => "ENOKEY"@,
            Errno::EKEYEXPIRED => "EKEYEXPIRED"@,
            Errno::EKEYREVOKED => "EKEYREVOKED"@,
            Errno::EKEYREJECTED => "EKEYREJECTED"@,
            Errno::EOWNERDEAD => "EOWNERDEAD"@,
            Errno::ENOTRECOVERABLE => "ENOTRECOVERABLE"@,
            Errno::ERFKILL => "ERFKILL"@,
            Errno::EHWPOISON => "EHWPOISON"@,
            Errno::EASSERT => "EASSERT"@,
        }
    }

    /// The human-readable description of this error.
    pub open spec fn spec_desc(self) -> Seq<char> {
        match self {
            Errno::EPERM => "Operation not permitted"@,
            Errno::ENOENT => "No such file or directory"@,
            Errno::ESRCH => "No such process"@,
            Errno::EINTR => "Interrupted system call"@,
            Errno::EIO => "I/O error"@,
            Errno::ENXIO => "No such device or address"@,
            Errno::E2BIG => "Argument list too long"@,
            Errno::ENOEXEC => "Exec format error"@,
            Errno::EBADF => "Bad file number"@,
            Errno::ECHILD => "No child processes"@,
            Errno::EAGAIN => "Try again"@,
            Errno::ENOMEM => "Out of memory"@,
            Errno::EACCES => "Permission denied"@,
            Errno::EFAULT => "Bad address"@,
            Errno::ENOTBLK => "Block device required"@,
            Errno::EBUSY => "Device or resource busy"@,
            Errno::EEXIST => "File exists"@,
            Errno::EXDEV => "Cross-device link"@,
            Errno::ENODEV => "No such device"@,
            Errno::ENOTDIR => "Not a directory"@,
            Errno::EISDIR => "Is a directory"@,
            Errno::EINVAL => "Invalid argument"@,
            Errno::ENFILE => "File table overflow"@,
            Errno::EMFILE => "Too many open files"@,
            Errno::ENOTTY => "Not a typewriter"@,
            Errno::ETXTBSY => "Text file busy"@,
            Errno::EFBIG => "File too large"@,
            Errno::ENOSPC => "No space left on device"@,
            Errno::ESPIPE => "Illegal seek"@,
            Errno::EROFS => "Read-only file system"@,
            Errno::EMLINK => "Too many links"@,
            Errno::EPIPE => "Broken pipe"@,
            Errno::EDOM => "Math argument out of domain of func"@,
            Errno::ERANGE => "Math result not representable"@,
            Errno::EDEADLK => "Resource deadlock would occur"@,
            Errno::ENAMETOOLONG => "File name too long"@,
            Errno::ENOLCK => "No locks available"@,
            Errno::ENOSYS => "Invalid system call number"@,
            Errno::ENOTEMPTY => "Directory not empty"@,
            Errno::ELOOP => "Too many symbolic links encountered"@,
            Errno::ENOTSUP => "Not supported"@,
            Errno::ENOMSG => "No message of desired type"@,
            Errno::EIDRM => "Identifier removed"@,
            Errno::ECHRNG => "Channel number out of range"@,
            Errno::EL2NSYNC => "Level 2 not synchronized"@,
            Errno::EL3HLT => "Level 3 halted"@,
            Errno::EL3RST => "Level 3 reset"@,
            Errno::ELNRNG => "Link number out of range"@,
            Errno::EUNATCH => "Protocol driver not attached"@,
            Errno::ENOCSI => "No CSI structure available"@,
            Errno::EL2HLT => "Level 2 halted"@,
            Errno::EBADE => "Invalid exchange"@,
            Errno::EBADR => "Invalid request descriptor"@,
            Errno::EXFULL => "Exchange full"@,
            Errno::ENOANO => "No anode"@,
            Errno::EBADRQC => "Invalid request code"@,
            Errno::EBADSLT => "Invalid slot"@,
            Errno::EBFONT => "Bad font file format"@,
            Errno::ENOSTR => "Device not a stream"@,
            Errno::ENODATA => "No data available"@,
            Errno::ETIME => "Timer expired"@,
            Errno::ENOSR => "Out of streams resources"@,
            Errno::ENONET => "Machine is not on the network"@,
            Errno::ENOPKG => "Package not installed"@,
            Errno::EREMOTE => "Object is remote"@,
            Errno::ENOLINK => "Link has been severed"@,
            Errno::EADV => "Advertise error"@,
            Errno::ESRMNT => "Srmount error"@,
            Errno::ECOMM => "Communication error on send"@,
            Errno::EPROTO => "Protocol error"@,
            Errno::EMULTIHOP => "Multihop attempted"@,
            Errno::EDOTDOT => "RFS specific error"@,
            Errno::EBADMSG => "Not a data message"@,
            Errno::EOVERFLOW => "Value too large for defined data type"@,
            Errno::ENOTUNIQ => "Name not unique on network"@,
            Errno::EBADFD => "File descriptor in bad state"@,
            Errno::EREMCHG => "Remote address changed"@,
            Errno::ELIBACC => "Can not access a needed shared library"@,
            Errno::ELIBBAD => "Accessing a corrupted shared library"@,
            Errno::ELIBSCN => ".lib section in a.out corrupted"@,
            Errno::ELIBMAX => "Attempting to link in too many shared libraries"@,
            Errno::ELIBEXEC => "Cannot exec a shared library directly"@,
            Errno::EILSEQ => "Illegal byte sequence"@,
            Errno::ERESTART => "Interrupted system call should be restarted"@,
            Errno::ESTRPIPE => "Streams pipe error"@,
            Errno::EUSERS => "Too many users"@,
            Errno::ENOTSOCK => "Socket operation on non-socket"@,
            Errno::EDESTADDRREQ => "Destination address required"@,
            Errno::EMSGSIZE => "Message too long"@,
            Errno::EPROTOTYPE => "Protocol wrong type for socket"@,
            Errno::ENOPROTOOPT => "Protocol not available"@,
            Errno::EPROTONOSUPPORT => "Protocol not supported"@,
            Errno::ESOCKTNOSUPPORT => "Socket type not supported"@,
            Errno::EOPNOTSUPP => "Operation not supported on transport endpoint"@,
            Errno::EPFNOSUPPORT => "Protocol family not supported"@,
            Errno::EAFNOSUPPORT => "Address family not supported by protocol"@,
            Errno::EADDRINUSE => "Address already in use"@,
            Errno::EADDRNOTAVAIL => "Cannot assign requested address"@,
            Errno::ENETDOWN => "Network is down"@,
            Errno::ENETUNREACH => "Network is unreachable"@,
            Errno::ENETRESET => "Network dropped connection because of reset"@,
            Errno::ECONNABORTED => "Software caused connection abort"@,
            Errno::ECONNRESET => "Connection reset by peer"@,
            Errno::ENOBUFS => "No buffer space available"@,
            Errno::EISCONN => "Transport endpoint is already connected"@,
            Errno::ENOTCONN => "Transport endpoint is not connected"@,
            Errno::ESHUTDOWN => "Cannot send after transport endpoint shutdown"@,
            Errno::ETOOMANYREFS => "Too many references: cannot splice"@,
            Errno::ETIMEDOUT => "Connection (or other operation) timed out"@,
            Errno::ECONNREFUSED => "Connection refused"@,
            Errno::EHOSTDOWN => "Host is down"@,
            Errno::EHOSTUNREACH => "No route to host"@,
            Errno::EALREADY => "Operation already in progress"@,
            Errno::EINPROGRESS => "Operation now in progress"@,
            Errno::ESTALE => "Stale file handle"@,
            Errno::EUCLEAN => "Structure needs cleaning"@,
            Errno::ENOTNAM => "Not a XENIX named type file"@,
            Errno::ENAVAIL => "No XENIX semaphores available"@,
            Errno::EISNAM => "Is a named type file"@,
            Errno::EREMOTEIO => "Remote I/O error"@,
            Errno::EDQUOT => "Quota exceeded"@,
            Errno::ENOMEDIUM => "No medium found"@,
            Errno::EMEDIUMTYPE => "Wrong medium type"@,
            Errno::ECANCELED => "Operation Canceled"@,
            Errno::ENOKEY => "Required key not available"@,
            Errno::EKEYEXPIRED => "Key has expired"@,
            Errno::EKEYREVOKED => "Key has been revoked"@,
            Errno::EKEYREJECTED => "Key was rejected by service"@,
            Errno::EOWNERDEAD => "Owner died"@,
            Errno::ENOTRECOVERABLE => "State not recoverable"@,
            Errno::ERFKILL => "Operation not possible due to RF-kill"@,
            Errno::EHWPOISON => "Memory page has hardware error"@,
            Errno::EASSERT => "Assertion failed"@,
        }
    }

    /// The number of this error.
    pub fn code(&self) -> (r: i32)
        ensures
            r == self.spec_code(),
    {
        match self {
            Errno::EPERM => 1,
            Errno::ENOENT => 2,
            Errno::ESRCH => 3,
            Errno::EINTR => 4,
            Errno::EIO => 5,
            Errno::ENXIO => 6,
            Errno::E2BIG => 7,
            Errno::ENOEXEC => 8,
            Errno::EBADF => 9,
            Errno::ECHILD => 10,
            Errno::EAGAIN => 11,
            Errno::ENOMEM => 12,
            Errno::EACCES => 13,
            Errno::EFAULT => 14,
            Errno::ENOTBLK => 15,
            Errno::EBUSY => 16,
            Errno::EEXIST => 17,
            Errno::EXDEV => 18,
            Errno::ENODEV => 19,
            Errno::ENOTDIR => 20,
            Errno::EISDIR => 21,
            Errno::EINVAL => 22,
            Errno::ENFILE => 23,
            Errno::EMFILE => 24,
            Errno::ENOTTY => 25,
            Errno::ETXTBSY => 26,
            Errno::EFBIG => 27,
            Errno::ENOSPC => 28,
            Errno::ESPIPE => 29,
            Errno::EROFS => 30,
            Errno::EMLINK => 31,
            Errno::EPIPE => 32,
            Errno::EDOM => 33,
            Errno::ERANGE => 34,
            Errno::EDEADLK => 35,
            Errno::ENAMETOOLONG => 36,
            Errno::ENOLCK => 37,
            Errno::ENOSYS => 38,
            Errno::ENOTEMPTY => 39,
            Errno::ELOOP => 40,
            Errno::ENOTSUP => 41,
            Errno::ENOMSG => 42,
            Errno::EIDRM => 43,
            Errno::ECHRNG => 44,
            Errno::EL2NSYNC => 45,
            Errno::EL3HLT => 46,
            Errno::EL3RST => 47,
            Errno::ELNRNG => 48,
            Errno::EUNATCH => 49,
            Errno::ENOCSI => 50,
            Errno::EL2HLT => 51,
            Errno::EBADE => 52,
            Errno::EBADR => 53,
            Errno::EXFULL => 54,
            Errno::ENOANO => 55,
            Errno::EBADRQC => 56,
            Errno::EBADSLT => 57,
            Errno::EBFONT => 59,
            Errno::ENOSTR => 60,
            Errno::ENODATA => 61,
            Errno::ETIME => 62,
            Errno::ENOSR => 63,
            Errno::ENONET => 64,
            Errno::ENOPKG => 65,
            Errno::EREMOTE => 66,
            Errno::ENOLINK => 67,
            Errno::EADV => 68,
            Errno::ESRMNT => 69,
            Errno::ECOMM => 70,
            Errno::EPROTO => 71,
            Errno::EMULTIHOP => 72,
            Errno::EDOTDOT => 73,
            Errno::EBADMSG => 74,
            Errno::EOVERFLOW => 75,
            Errno::ENOTUNIQ => 76,
            Errno::EBADFD => 77,
            Errno::EREMCHG => 78,
            Errno::ELIBACC => 79,
            Errno::ELIBBAD => 80,
            Errno::ELIBSCN => 81,
            Errno::ELIBMAX => 82,
            Errno::ELIBEXEC => 83,
            Errno::EILSEQ => 84,
            Errno::ERESTART => 85,
            Errno::ESTRPIPE => 86,
            Errno::EUSERS => 87,
            Errno::ENOTSOCK => 88,
            Errno::EDESTADDRREQ => 89,
            Errno::EMSGSIZE => 90,
            Errno::EPROTOTYPE => 91,
            Errno::ENOPROTOOPT => 92,
            Errno::EPROTONOSUPPORT => 93,
            Errno::ESOCKTNOSUPPORT => 94,
            Errno::EOPNOTSUPP => 95,
            Errno::EPFNOSUPPORT => 96,
            Errno::EAFNOSUPPORT => 97,
            Errno::EADDRINUSE => 98,
            Errno::EADDRNOTAVAIL => 99,
            Errno::ENETDOWN => 100,
            Errno::ENETUNREACH => 101,
            Errno::ENETRESET => 102,
            Errno::ECONNABORTED => 103,
            Errno::ECONNRESET => 104,
            Errno::ENOBUFS => 105,
            Errno::EISCONN => 106,
            Errno::ENOTCONN => 107,
            Errno::ESHUTDOWN => 108,
            Errno::ETOOMANYREFS => 109,
            Errno::ETIMEDOUT => 110,
            Errno::ECONNREFUSED => 111,
            Errno::EHOSTDOWN => 112,
            Errno::EHOSTUNREACH => 113,
            Errno::EALREADY => 114,
            Errno::EINPROGRESS => 115,
            Errno::ESTALE => 116,
            Errno::EUCLEAN => 117,
            Errno::ENOTNAM => 118,
            Errno::ENAVAIL => 119,
            Errno::EISNAM => 120,
            Errno::EREMOTEIO => 121,
            Errno::EDQUOT => 122,
            Errno::ENOMEDIUM => 123,
            Errno::EMEDIUMTYPE => 124,
            Errno::ECANCELED => 125,
            Errno::ENOKEY => 126,
            Errno::EKEYEXPIRED => 127,
            Errno::EKEYREVOKED => 128,
            Errno::EKEYREJECTED => 129,
            Errno::EOWNERDEAD => 130,
            Errno::ENOTRECOVERABLE => 131,
            Errno::ERFKILL => 132,
            Errno::EHWPOISON => 133,
            Errno::EASSERT => 134,
        }
    }

    /// The error with the given number, if there is one.
    pub fn from_code(c: i32) -> (r: Option<Errno>)
        ensures
            r == errno_of_code(c as int),
    {
        match c {
            1 => Some(Errno::EPERM),
            2 => Some(Errno::ENOENT),
            3 => Some(Errno::ESRCH),
            4 => Some(Errno::EINTR),
            5 => Some(Errno::EIO),
            6 => Some(Errno::ENXIO),
            7 => Some(Errno::E2BIG),
            8 => Some(Errno::ENOEXEC),
            9 => Some(Errno::EBADF),
            10 => Some(Errno::ECHILD),
            11 => Some(Errno::EAGAIN),
            12 => Some(Errno::ENOMEM),
            13 => Some(Errno::EACCES),
            14 => Some(Errno::EFAULT),
            15 => Some(Errno::ENOTBLK),
            16 => Some(Errno::EBUSY),
            17 => Some(Errno::EEXIST),
            18 => Some(Errno::EXDEV),
            19 => Some(Errno::ENODEV),
            20 => Some(Errno::ENOTDIR),
            21 => Some(Errno::EISDIR),
            22 => Some(Errno::EINVAL),
            23 => Some(Errno::ENFILE),
            24 => Some(Errno::EMFILE),
            25 => Some(Errno::ENOTTY),
            26 => Some(Errno::ETXTBSY),
            27 => Some(Errno::EFBIG),
            28 => Some(Errno::ENOSPC),
            29 => Some(Errno::ESPIPE),
            30 => Some(Errno::EROFS),
            31 => Some(Errno::EMLINK),
            32 => Some(Errno::EPIPE),
            33 => Some(Errno::EDOM),
            34 => Some(Errno::ERANGE),
            35 => Some(Errno::EDEADLK),
            36 => Some(Errno::ENAMETOOLONG),
            37 => Some(Errno::ENOLCK),
            38 => Some(Errno::ENOSYS),
            39 => Some(Errno::ENOTEMPTY),
            40 => Some(Errno::ELOOP),
            41 => Some(Errno::ENOTSUP),
            42 => Some(Errno::ENOMSG),
            43 => Some(Errno::EIDRM),
            44 => Some(Errno::ECHRNG),
            45 => Some(Errno::EL2NSYNC),
            46 => Some(Errno::EL3HLT),
            47 => Some(Errno::EL3RST),
            48 => Some(Errno::ELNRNG),
            49 => Some(Errno::EUNATCH),
            50 => Some(Errno::ENOCSI),
            51 => Some(Errno::EL2HLT),
            52 => Some(Errno::EBADE),
            53 => Some(Errno::EBADR),
            54 => Some(Errno::EXFULL),
            55 => Some(Errno::ENOANO),
            56 => Some(Errno::EBADRQC),
            57 => Some(Errno::EBADSLT),
            59 => Some(Errno::EBFONT),
            60 => Some(Errno::ENOSTR),
            61 => Some(Errno::ENODATA),
            62 => Some(Errno::ETIME),
            63 => Some(Errno::ENOSR),
            64 => Some(Errno::ENONET),
            65 => Some(Errno::ENOPKG),
            66 => Some(Errno::EREMOTE),
            67 => Some(Errno::ENOLINK),
            68 => Some(Errno::EADV),
            69 => Some(Errno::ESRMNT),
            70 => Some(Errno::ECOMM),
            71 => Some(Errno::EPROTO),
            72 => Some(Errno::EMULTIHOP),
            73 => Some(Errno::EDOTDOT),
            74 => Some(Errno::EBADMSG),
            75 => Some(Errno::EOVERFLOW),
            76 => Some(Errno::ENOTUNIQ),
            77 => Some(Errno::EBADFD),
            78 => Some(Errno::EREMCHG),
            79 => Some(Errno::ELIBACC),
            80 => Some(Errno::ELIBBAD),
            81 => Some(Errno::ELIBSCN),
            82 => Some(Errno::ELIBMAX),
            83 => Some(Errno::ELIBEXEC),
            84 => Some(Errno::EILSEQ),
            85 => Some(Errno::ERESTART),
            86 => Some(Errno::ESTRPIPE),
            87 => Some(Errno::EUSERS),
            88 => Some(Errno::ENOTSOCK),
            89 => Some(Errno::EDESTADDRREQ),
            90 => Some(Errno::EMSGSIZE),
            91 => Some(Errno::EPROTOTYPE),
            92 => Some(Errno::ENOPROTOOPT),
            93 => Some(Errno::EPROTONOSUPPORT),
            94 => Some(Errno::ESOCKTNOSUPPORT),
            95 => Some(Errno::EOPNOTSUPP),
            96 => Some(Errno::EPFNOSUPPORT),
            97 => Some(Errno::EAFNOSUPPORT),
            98 => Some(Errno::EADDRINUSE),
            99 => Some(Errno::EADDRNOTAVAIL),
            100 => Some(Errno::ENETDOWN),
            101 => Some(Errno::ENETUNREACH),
            102 => Some(Errno::ENETRESET),
            103 => Some(Errno::ECONNABORTED),
            104 => Some(Errno::ECONNRESET),
            105 => Some(Errno::ENOBUFS),
            106 => Some(Errno::EISCONN),
            107 => Some(Errno::ENOTCONN),
            108 => Some(Errno::ESHUTDOWN),
            109 => Some(Errno::ETOOMANYREFS),
            110 => Some(Errno::ETIMEDOUT),
            111 => Some(Errno::ECONNREFUSED),
            112 => Some(Errno::EHOSTDOWN),
            113 => Some(Errno::EHOSTUNREACH),
            114 => Some(Errno::EALREADY),
            115 => Some(Errno::EINPROGRESS),
            116 => Some(Errno::ESTALE),
            117 => Some(Errno::EUCLEAN),
            118 => Some(Errno::ENOTNAM),
            119 => Some(Errno::ENAVAIL),
            120 => Some(Errno::EISNAM),
            121 => Some(Errno::EREMOTEIO),
            122 => Some(Errno::EDQUOT),
            123 => Some(Errno::ENOMEDIUM),
            124 => Some(Errno::EMEDIUMTYPE),
            125 => Some(Errno::ECANCELED),
            126 => Some(Errno::ENOKEY),
            127 => Some(Errno::EKEYEXPIRED),
            128 => Some(Errno::EKEYREVOKED),
            129 => Some(Errno::EKEYREJECTED),
            130 => Some(Errno::EOWNERDEAD),
            131 => Some(Errno::ENOTRECOVERABLE),
            132 => Some(Errno::ERFKILL),
            133 => Some(Errno::EHWPOISON),
            134 => Some(Errno::EASSERT),
            _ => None,
        }
    }

    /// The symbolic name of this error, such as `"ENOENT"`.
    pub fn name(&self) -> (r: &'static str)
        ensures
            r@ == self.spec_name(),
    {
        match self {
            Errno::EPERM => "EPERM",
            Errno::ENOENT => "ENOENT",
            Errno::ESRCH => "ESRCH",
            Errno::EINTR => "EINTR",
            Errno::EIO => "EIO",
            Errno::ENXIO => "ENXIO",
            Errno::E2BIG => "E2BIG",
            Errno::ENOEXEC => "ENOEXEC",
            Errno::EBADF => "EBADF",
            Errno::ECHILD => "ECHILD",
            Errno::EAGAIN => "EAGAIN",
            Errno::ENOMEM => "ENOMEM",
            Errno::EACCES => "EACCES",
            Errno::EFAULT => "EFAULT",
            Errno::ENOTBLK => "ENOTBLK",
            Errno::EBUSY => "EBUSY",
            Errno::EEXIST => "EEXIST",
            Errno::EXDEV => "EXDEV",
            Errno::ENODEV => "ENODEV",
            Errno::ENOTDIR => "ENOTDIR",
            Errno::EISDIR => "EISDIR",
            Errno::EINVAL => "EINVAL",
            Errno::ENFILE => "ENFILE",
            Errno::EMFILE => "EMFILE",
            Errno::ENOTTY => "ENOTTY",
            Errno::ETXTBSY => "ETXTBSY",
            Errno::EFBIG => "EFBIG",
            Errno::ENOSPC => "ENOSPC",
            Errno::ESPIPE => "ESPIPE",
            Errno::EROFS => "EROFS",
            Errno::EMLINK => "EMLINK",
            Errno::EPIPE => "EPIPE",
            Errno::EDOM => "EDOM",
            Errno::ERANGE => "ERANGE",
            Errno::EDEADLK => "EDEADLK",
            Errno::ENAMETOOLONG => "ENAMETOOLONG",
            Errno::ENOLCK => "ENOLCK",
            Errno::ENOSYS => "ENOSYS",
            Errno::ENOTEMPTY => "ENOTEMPTY",
            Errno::ELOOP => "ELOOP",
            Errno::ENOTSUP => "ENOTSUP",
            Errno::ENOMSG => "ENOMSG",
            Errno::EIDRM => "EIDRM",
            Errno::ECHRNG => "ECHRNG",
            Errno::EL2NSYNC => "EL2NSYNC",
            Errno::EL3HLT => "EL3HLT",
            Errno::EL3RST => "EL3RST",
            Errno::ELNRNG => "ELNRNG",
            Errno::EUNATCH => "EUNATCH",
            Errno::ENOCSI => "ENOCSI",
            Errno::EL2HLT => "EL2HLT",
            Errno::EBADE => "EBADE",
            Errno::EBADR => "EBADR",
            Errno::EXFULL => "EXFULL",
            Errno::ENOANO => "ENOANO",
            Errno::EBADRQC => "EBADRQC",
            Errno::EBADSLT => "EBADSLT",
            Errno::EBFONT => "EBFONT",
            Errno::ENOSTR => "ENOSTR",
            Errno::ENODATA => "ENODATA",
            Errno::ETIME => "ETIME",
            Errno::ENOSR => "ENOSR",
            Errno::ENONET => "ENONET",
            Errno::ENOPKG => "ENOPKG",
            Errno::EREMOTE => "EREMOTE",
            Errno::ENOLINK => "ENOLINK",
            Errno::EADV => "EADV",
            Errno::ESRMNT => "ESRMNT",
            Errno::ECOMM => "ECOMM",
            Errno::EPROTO => "EPROTO",
            Errno::EMULTIHOP => "EMULTIHOP",
            Errno::EDOTDOT => "EDOTDOT",
            Errno::EBADMSG => "EBADMSG",
            Errno::EOVERFLOW => "EOVERFLOW",
            Errno::ENOTUNIQ => "ENOTUNIQ",
            Errno::EBADFD => "EBADFD",
            Errno::EREMCHG => "EREMCHG",
            Errno::ELIBACC => "ELIBACC",
            Errno::ELIBBAD => "ELIBBAD",
            Errno::ELIBSCN => "ELIBSCN",
            Errno::ELIBMAX => "ELIBMAX",
            Errno::ELIBEXEC => "ELIBEXEC",
            Errno::EILSEQ => "EILSEQ",
            Errno::ERESTART => "ERESTART",
            Errno::ESTRPIPE => "ESTRPIPE",
            Errno::EUSERS => "EUSERS",
            Errno::ENOTSOCK => "ENOTSOCK",
            Errno::EDESTADDRREQ => "EDESTADDRREQ",
            Errno::EMSGSIZE => "EMSGSIZE",
            Errno::EPROTOTYPE => "EPROTOTYPE",
            Errno::ENOPROTOOPT => "ENOPROTOOPT",
            Errno::EPROTONOSUPPORT => "EPROTONOSUPPORT",
            Errno::ESOCKTNOSUPPORT => "ESOCKTNOSUPPORT",
            Errno::EOPNOTSUPP => "EOPNOTSUPP",
            Errno::EPFNOSUPPORT => "EPFNOSUPPORT",
            Errno::EAFNOSUPPORT => "EAFNOSUPPORT",
            Errno::EADDRINUSE => "EADDRINUSE",
            Errno::EADDRNOTAVAIL => "EADDRNOTAVAIL",
            Errno::ENETDOWN => "ENETDOWN",
            Errno::ENETUNREACH => "ENETUNREACH",
            Errno::ENETRESET => "ENETRESET",
            Errno::ECONNABORTED => "ECONNABORTED",
            Errno::ECONNRESET => "ECONNRESET",
            Errno::ENOBUFS => "ENOBUFS",
            Errno::EISCONN => "EISCONN",
            Errno::ENOTCONN => "ENOTCONN",
            Errno::ESHUTDOWN => "ESHUTDOWN",
            Errno::ETOOMANYREFS => "ETOOMANYREFS",
            Errno::ETIMEDOUT => "ETIMEDOUT",
            Errno::ECONNREFUSED => "ECONNREFUSED",
            Errno::EHOSTDOWN => "EHOSTDOWN",
            Errno::EHOSTUNREACH => "EHOSTUNREACH",
            Errno::EALREADY => "EALREADY",
            Errno::EINPROGRESS => "EINPROGRESS",
            Errno::ESTALE => "ESTALE",
            Errno::EUCLEAN => "EUCLEAN",
            Errno::ENOTNAM => "ENOTNAM",
            Errno::ENAVAIL => "ENAVAIL",
            Errno::EISNAM => "EISNAM",
            Errno::EREMOTEIO => "EREMOTEIO",
            Errno::EDQUOT => "EDQUOT",
            Errno::ENOMEDIUM => "ENOMEDIUM",
            Errno::EMEDIUMTYPE => "EMEDIUMTYPE",
            Errno::ECANCELED => "ECANCELED",
            Errno::ENOKEY => "ENOKEY",
            Errno::EKEYEXPIRED => "EKEYEXPIRED",
            Errno::EKEYREVOKED => "EKEYREVOKED",
            Errno::EKEYREJECTED => "EKEYREJECTED",
            Errno::EOWNERDEAD => "EOWNERDEAD",
            Errno::ENOTRECOVERABLE => "ENOTRECOVERABLE",
            Errno::ERFKILL => "ERFKILL",
            Errno::EHWPOISON => "EHWPOISON",
            Errno::EASSERT => "EASSERT",
        }
    }

    /// The error as it is printed: its name, then its description in
    /// brackets.
    pub fn text(&self) -> (r: Vec<char>)
        ensures
            r@ == self.spec_name() + " ("@ + self.spec_desc() + ")"@,
    {
        let mut out: Vec<char> = Vec::new();
        push_str(&mut out, self.name());
        push_str(&mut out, " (");
        push_str(&mut out, self.desc());
        push_str(&mut out, ")");
        proof {
            assert(out@ =~= self.spec_name() + " ("@ + self.spec_desc() + ")"@);
        }
        out
    }

    /// The human-readable description of this error.
    pub fn desc(&self) -> (r: &'static str)
        ensures
            r@ == self.spec_desc(),
    {
        match self {
            Errno::EPERM => "Operation not permitted",
            Errno::ENOENT => "No such file or directory",
            Errno::ESRCH => "No such process",
            Errno::EINTR => "Interrupted system call",
            Errno::EIO => "I/O error",
            Errno::ENXIO => "No such device or address",
            Errno::E2BIG => "Argument list too long",
            Errno::ENOEXEC => "Exec format error",
            Errno::EBADF => "Bad file number",
            Errno::ECHILD => "No child processes",
            Errno::EAGAIN => "Try again",
            Errno::ENOMEM => "Out of memory",
            Errno::EACCES => "Permission denied",
            Errno::EFAULT => "Bad address",
            Errno::ENOTBLK => "Block device required",
            Errno::EBUSY => "Device or resource busy",
            Errno::EEXIST => "File exists",
            Errno::EXDEV => "Cross-device link",
            Errno::ENODEV => "No such device",
            Errno::ENOTDIR => "Not a directory",
            Errno::EISDIR => "Is a directory",
            Errno::EINVAL => "Invalid argument",
            Errno::ENFILE => "File table overflow",
            Errno::EMFILE => "Too many open files",
            Errno::ENOTTY => "Not a typewriter",
            Errno::ETXTBSY => "Text file busy",
            Errno::EFBIG => "File too large",
            Errno::ENOSPC => "No space left on device",
            Errno::ESPIPE => "Illegal seek",
            Errno::EROFS => "Read-only file system",
            Errno::EMLINK => "Too many links",
            Errno::EPIPE => "Broken pipe",
            Errno::EDOM => "Math argument out of domain of func",
            Errno::ERANGE => "Math result not representable",
            Errno::EDEADLK => "Resource deadlock would occur",
            Errno::ENAMETOOLONG => "File name too long",
            Errno::ENOLCK => "No locks available",
            Errno::ENOSYS => "Invalid system call number",
            Errno::ENOTEMPTY => "Directory not empty",
            Errno::ELOOP => "Too many symbolic links encountered",
            Errno::ENOTSUP => "Not supported",
            Errno::ENOMSG => "No message of desired type",
            Errno::EIDRM => "Identifier removed",
            Errno::ECHRNG => "Channel number out of range",
            Errno::EL2NSYNC => "Level 2 not synchronized",
            Errno::EL3HLT => "Level 3 halted",
            Errno::EL3RST => "Level 3 reset",
            Errno::ELNRNG => "Link number out of range",
            Errno::EUNATCH => "Protocol driver not attached",
            Errno::ENOCSI => "No CSI structure available",
            Errno::EL2HLT => "Level 2 halted",
            Errno::EBADE => "Invalid exchange",
            Errno::EBADR => "Invalid request descriptor",
            Errno::EXFULL => "Exchange full",
            Errno::ENOANO => "No anode",
            Errno::EBADRQC => "Invalid request code",
            Errno::EBADSLT => "Invalid slot",
            Errno::EBFONT => "Bad font file format",
            Errno::ENOSTR => "Device not a stream",
            Errno::ENODATA => "No data available",
            Errno::ETIME => "Timer expired",
            Errno::ENOSR => "Out of streams resources",
            Errno::ENONET => "Machine is not on the network",
            Errno::ENOPKG => "Package not installed",
            Errno::EREMOTE => "Object is remote",
            Errno::ENOLINK => "Link has been severed",
            Errno::EADV => "Advertise error",
            Errno::ESRMNT => "Srmount error",
            Errno::ECOMM => "Communication error on send",
            Errno::EPROTO => "Protocol error",
            Errno::EMULTIHOP => "Multihop attempted",
            Errno::EDOTDOT => "RFS specific error",
            Errno::EBADMSG => "Not a data message",
            Errno::EOVERFLOW => "Value too large for defined data type",
            Errno::ENOTUNIQ => "Name not unique on network",
            Errno::EBADFD => "File descriptor in bad state",
            Errno::EREMCHG => "Remote address changed",
            Errno::ELIBACC => "Can not access a needed shared library",
            Errno::ELIBBAD => "Accessing a corrupted shared library",
            Errno::ELIBSCN => ".lib section in a.out corrupted",
            Errno::ELIBMAX => "Attempting to link in too many shared libraries",
            Errno::ELIBEXEC => "Cannot exec a shared library directly",
            Errno::EILSEQ => "Illegal byte sequence",
            Errno::ERESTART => "Interrupted system call should be restarted",
            Errno::ESTRPIPE => "Streams pipe error",
            Errno::EUSERS => "Too many users",
            Errno::ENOTSOCK => "Socket operation on non-socket",
            Errno::EDESTADDRREQ => "Destination address required",
            Errno::EMSGSIZE => "Message too long",
            Errno::EPROTOTYPE => "Protocol wrong type for socket",
            Errno::ENOPROTOOPT => "Protocol not available",
            Errno::EPROTONOSUPPORT => "Protocol not supported",
            Errno::ESOCKTNOSUPPORT => "Socket type not supported",
            Errno::EOPNOTSUPP => "Operation not supported on transport endpoint",
            Errno::EPFNOSUPPORT => "Protocol family not supported",
            Errno::EAFNOSUPPORT => "Address family not supported by protocol",
            Errno::EADDRINUSE => "Address already in use",
            Errno::EADDRNOTAVAIL => "Cannot assign requested address",
            Errno::ENETDOWN => "Network is down",
            Errno::ENETUNREACH => "Network is unreachable",
            Errno::ENETRESET => "Network dropped connection because of reset",
            Errno::ECONNABORTED => "Software caused connection abort",
            Errno::ECONNRESET => "Connection reset by peer",
            Errno::ENOBUFS => "No buffer space available",
            Errno::EISCONN => "Transport endpoint is already connected",
            Errno::ENOTCONN => "Transport endpoint is not connected",
            Errno::ESHUTDOWN => "Cannot send after transport endpoint shutdown",
            Errno::ETOOMANYREFS => "Too many references: cannot splice",
            Errno::ETIMEDOUT => "Connection (or other operation) timed out",
            Errno::ECONNREFUSED => "Connection refused",
            Errno::EHOSTDOWN => "Host is down",
            Errno::EHOSTUNREACH => "No route to host",
            Errno::EALREADY => "Operation already in progress",
            Errno::EINPROGRESS => "Operation now in progress",
            Errno::ESTALE => "Stale file handle",
            Errno::EUCLEAN => "Structure needs cleaning",
            Errno::ENOTNAM => "Not a XENIX named type file",
            Errno::ENAVAIL => "No XENIX semaphores available",
            Errno::EISNAM => "Is a named type file",
            Errno::EREMOTEIO => "Remote I/O error",
            Errno::EDQUOT => "Quota exceeded",
            Errno::ENOMEDIUM => "No medium found",
            Errno::EMEDIUMTYPE => "Wrong medium type",
            Errno::ECANCELED => "Operation Canceled",
            Errno::ENOKEY => "Required key not available",
            Errno::EKEYEXPIRED => "Key has expired",
            Errno::EKEYREVOKED => "Key has been revoked",
            Errno::EKEYREJECTED => "Key was rejected by service",
            Errno::EOWNERDEAD => "Owner died",
            Errno::ENOTRECOVERABLE => "State not recoverable",
            Errno::ERFKILL => "Operation not possible due to RF-kill",
            Errno::EHWPOISON => "Memory page has hardware error",
            Errno::EASSERT => "Assertion failed",
        }
    }
}

/// Every error has a valid number, and that number names that error again.
pub proof fn lemma_code_names_errno(e: Errno)
    ensures
        is_errno_code(e.spec_code()),
        errno_of_code(e.spec_code()) == Some(e),
{
}

/// The numbers of the errors are the Linux ones: each error has the number
/// below, so [`Errno::code`] gives it, [`Errno::from_code`] takes it back to
/// that error, and a failed status word holds its negation.
pub proof fn lemma_linux_error_numbers()
    ensures
        Errno::EPERM.spec_code() == 1,
        Errno::ENOENT.spec_code() == 2,
        Errno::ESRCH.spec_code() == 3,
        Errno::EINTR.spec_code() == 4,
        Errno::EIO.spec_code() == 5,
        Errno::ENXIO.spec_code() == 6,
        Errno::E2BIG.spec_code() == 7,
        Errno::ENOEXEC.spec_code() == 8,
        Errno::EBADF.spec_code() == 9,
        Errno::ECHILD.spec_code() == 10,
        Errno::EAGAIN.spec_code() == 11,
        Errno::ENOMEM.spec_code() == 12,
        Errno::EACCES.spec_code() == 13,
        Errno::EFAULT.spec_code() == 14,
        Errno::ENOTBLK.spec_code() == 15,
        Errno::EBUSY.spec_code() == 16,
        Errno::EEXIST.spec_code() == 17,
        Errno::EXDEV.spec_code() == 18,
        Errno::ENODEV.spec_code() == 19,
        Errno::ENOTDIR.spec_code() == 20,
        Errno::EISDIR.spec_code() == 21,
        Errno::EINVAL.spec_code() == 22,
        Errno::ENFILE.spec_code() == 23,
        Errno::EMFILE.spec_code() == 24,
        Errno::ENOTTY.spec_code() == 25,
        Errno::ETXTBSY.spec_code() == 26,
        Errno::EFBIG.spec_code() == 27,
        Errno::ENOSPC.spec_code() == 28,
        Errno::ESPIPE.spec_code() == 29,
        Errno::EROFS.spec_code() == 30,
        Errno::EMLINK.spec_code() == 31,
        Errno::EPIPE.spec_code() == 32,
        Errno::EDOM.spec_code() == 33,
        Errno::ERANGE.spec_code() == 34,
        Errno::EDEADLK.spec_code() == 35,
        Errno::ENAMETOOLONG.spec_code() == 36,
        Errno::ENOLCK.spec_code() == 37,
        Errno::ENOSYS.spec_code() == 38,
        Errno::ENOTEMPTY.spec_code() == 39,
        Errno::ELOOP.spec_code() == 40,
        Errno::ENOTSUP.spec_code() == 41,
        Errno::ENOMSG.spec_code() == 42,
        Errno::EIDRM.spec_code() == 43,
        Errno::ECHRNG.spec_code() == 44,
        Errno::EL2NSYNC.spec_code() == 45,
        Errno::EL3HLT.spec_code() == 46,
        Errno::EL3RST.spec_code() == 47,
        Errno::ELNRNG.spec_code() == 48,
        Errno::EUNATCH.spec_code() == 49,
        Errno::ENOCSI.spec_code() == 50,
        Errno::EL2HLT.spec_code() == 51,
        Errno::EBADE.spec_code() == 52,
        Errno::EBADR.spec_code() == 53,
        Errno::EXFULL.spec_code() == 54,
        Errno::ENOANO.spec_code() == 55,
        Errno::EBADRQC.spec_code() == 56,
        Errno::EBADSLT.spec_code() == 57,
        Errno::EBFONT.spec_code() == 59,
        Errno::ENOSTR.spec_code() == 60,
        Errno::ENODATA.spec_code() == 61,
        Errno::ETIME.spec_code() == 62,
        Errno::ENOSR.spec_code() == 63,
        Errno::ENONET.spec_code() == 64,
        Errno::ENOPKG.spec_code() == 65,
        Errno::EREMOTE.spec_code() == 66,
        Errno::ENOLINK.spec_code() == 67,
        Errno::EADV.spec_code() == 68,
        Errno::ESRMNT.spec_code() == 69,
        Errno::ECOMM.spec_code() == 70,
        Errno::EPROTO.spec_code() == 71,
        Errno::EMULTIHOP.spec_code() == 72,
        Errno::EDOTDOT.spec_code() == 73,
        Errno::EBADMSG.spec_code() == 74,
        Errno::EOVERFLOW.spec_code() == 75,
        Errno::ENOTUNIQ.spec_code() == 76,
        Errno::EBADFD.spec_code() == 77,
        Errno::EREMCHG.spec_code() == 78,
        Errno::ELIBACC.spec_code() == 79,
        Errno::ELIBBAD.spec_code() == 80,
        Errno::ELIBSCN.spec_code() == 81,
        Errno::ELIBMAX.spec_code() == 82,
        Errno::ELIBEXEC.spec_code() == 83,
        Errno::EILSEQ.spec_code() == 84,
        Errno::ERESTART.spec_code() == 85,
        Errno::ESTRPIPE.spec_code() == 86,
        Errno::EUSERS.spec_code() == 87,
        Errno::ENOTSOCK.spec_code() == 88,
        Errno::EDESTADDRREQ.spec_code() == 89,
        Errno::EMSGSIZE.spec_code() == 90,
        Errno::EPROTOTYPE.spec_code() == 91,
        Errno::ENOPROTOOPT.spec_code() == 92,
        Errno::EPROTONOSUPPORT.spec_code() == 93,
        Errno::ESOCKTNOSUPPORT.spec_code() == 94,
        Errno::EOPNOTSUPP.spec_code() == 95,
        Errno::EPFNOSUPPORT.spec_code() == 96,
        Errno::EAFNOSUPPORT.spec_code() == 97,
        Errno::EADDRINUSE.spec_code() == 98,
        Errno::EADDRNOTAVAIL.spec_code() == 99,
        Errno::ENETDOWN.spec_code() == 100,
        Errno::ENETUNREACH.spec_code() == 101,
        Errno::ENETRESET.spec_code() == 102,
        Errno::ECONNABORTED.spec_code() == 103,
        Errno::ECONNRESET.spec_code() == 104,
        Errno::ENOBUFS.spec_code() == 105,
        Errno::EISCONN.spec_code() == 106,
        Errno::ENOTCONN.spec_code() == 107,
        Errno::ESHUTDOWN.spec_code() == 108,
        Errno::ETOOMANYREFS.spec_code() == 109,
        Errno::ETIMEDOUT.spec_code() == 110,
        Errno::ECONNREFUSED.spec_code() == 111,
        Errno::EHOSTDOWN.spec_code() == 112,
        Errno::EHOSTUNREACH.spec_code() == 113,
        Errno::EALREADY.spec_code() == 114,
        Errno::EINPROGRESS.spec_code() == 115,
        Errno::ESTALE.spec_code() == 116,
        Errno::EUCLEAN.spec_code() == 117,
        Errno::ENOTNAM.spec_code() == 118,
        Errno::ENAVAIL.spec_code() == 119,
        Errno::EISNAM.spec_code() == 120,
        Errno::EREMOTEIO.spec_code() == 121,
        Errno::EDQUOT.spec_code() == 122,
        Errno::ENOMEDIUM.spec_code() == 123,
        Errno::EMEDIUMTYPE.spec_code() == 124,
        Errno::ECANCELED.spec_code() == 125,
        Errno::ENOKEY.spec_code() == 126,
        Errno::EKEYEXPIRED.spec_code() == 127,
        Errno::EKEYREVOKED.spec_code() == 128,
        Errno::EKEYREJECTED.spec_code() == 129,
        Errno::EOWNERDEAD.spec_code() == 130,
        Errno::ENOTRECOVERABLE.spec_code() == 131,
        Errno::ERFKILL.spec_code() == 132,
        Errno::EHWPOISON.spec_code() == 133,
        Errno::EASSERT.spec_code() == 134,
{
}

/// Each error's symbolic name is that of its variant, and its description
/// the Linux one.
pub proof fn lemma_error_names_and_descriptions()
    ensures
        Errno::EPERM.spec_name() == "EPERM"@,
        Errno::EPERM.spec_desc() == "Operation not permitted"@,
        Errno::ENOENT.spec_name() == "ENOENT"@,
        Errno::ENOENT.spec_desc() == "No such file or directory"@,
        Errno::ESRCH.spec_name() == "ESRCH"@,
        Errno::ESRCH.spec_desc() == "No such process"@,
        Errno::EINTR.spec_name() == "EINTR"@,
        Errno::EINTR.spec_desc() == "Interrupted system call"@,
        Errno::EIO.spec_name() == "EIO"@,
        Errno::EIO.spec_desc() == "I/O error"@,
        Errno::ENXIO.spec_name() == "ENXIO"@,
        Errno::ENXIO.spec_desc() == "No such device or address"@,
        Errno::E2BIG.spec_name() == "E2BIG"@,
        Errno::E2BIG.spec_desc() == "Argument list too long"@,
        Errno::ENOEXEC.spec_name() == "ENOEXEC"@,
        Errno::ENOEXEC.spec_desc() == "Exec format error"@,
        Errno::EBADF.spec_name() == "EBADF"@,
        Errno::EBADF.spec_desc() == "Bad file number"@,
        Errno::ECHILD.spec_name() == "ECHILD"@,
        Errno::ECHILD.spec_desc() == "No child processes"@,
        Errno::EAGAIN.spec_name() == "EAGAIN"@,
        Errno::EAGAIN.spec_desc() == "Try again"@,
        Errno::ENOMEM.spec_name() == "ENOMEM"@,
        Errno::ENOMEM.spec_desc() == "Out of memory"@,
        Errno::EACCES.spec_name() == "EACCES"@,
        Errno::EACCES.spec_desc() == "Permission denied"@,
        Errno::EFAULT.spec_name() == "EFAULT"@,
        Errno::EFAULT.spec_desc() == "Bad address"@,
        Errno::ENOTBLK.spec_name() == "ENOTBLK"@,
        Errno::ENOTBLK.spec_desc() == "Block device required"@,
        Errno::EBUSY.spec_name() == "EBUSY"@,
        Errno::EBUSY.spec_desc() == "Device or resource busy"@,
        Errno::EEXIST.spec_name() == "EEXIST"@,
        Errno::EEXIST.spec_desc() == "File exists"@,
        Errno::EXDEV.spec_name() == "EXDEV"@,
        Errno::EXDEV.spec_desc() == "Cross-device link"@,
        Errno::ENODEV.spec_name() == "ENODEV"@,
        Errno::ENODEV.spec_desc() == "No such device"@,
        Errno::ENOTDIR.spec_name() == "ENOTDIR"@,
        Errno::ENOTDIR.spec_desc() == "Not a directory"@,
        Errno::EISDIR.spec_name() == "EISDIR"@,
        Errno::EISDIR.spec_desc() == "Is a directory"@,
        Errno::EINVAL.spec_name() == "EINVAL"@,
        Errno::EINVAL.spec_desc() == "Invalid argument"@,
        Errno::ENFILE.spec_name() == "ENFILE"@,
        Errno::ENFILE.spec_desc() == "File table overflow"@,
        Errno::EMFILE.spec_name() == "EMFILE"@,
        Errno::EMFILE.spec_desc() == "Too many open files"@,
        Errno::ENOTTY.spec_name() == "ENOTTY"@,
        Errno::ENOTTY.spec_desc() == "Not a typewriter"@,
        Errno::ETXTBSY.spec_name() == "ETXTBSY"@,
        Errno::ETXTBSY.spec_desc() == "Text file busy"@,
        Errno::EFBIG.spec_name() == "EFBIG"@,
        Errno::EFBIG.spec_desc() == "File too large"@,
        Errno::ENOSPC.spec_name() == "ENOSPC"@,
        Errno::ENOSPC.spec_desc() == "No space left on device"@,
        Errno::ESPIPE.spec_name() == "ESPIPE"@,
        Errno::ESPIPE.spec_desc() == "Illegal seek"@,
        Errno::EROFS.spec_name() == "EROFS"@,
        Errno::EROFS.spec_desc() == "Read-only file system"@,
        Errno::EMLINK.spec_name() == "EMLINK"@,
        Errno::EMLINK.spec_desc() == "Too many links"@,
        Errno::EPIPE.spec_name() == "EPIPE"@,
        Errno::EPIPE.spec_desc() == "Broken pipe"@,
        Errno::EDOM.spec_name() == "EDOM"@,
        Errno::EDOM.spec_desc() == "Math argument out of domain of func"@,
        Errno::ERANGE.spec_name() == "ERANGE"@,
        Errno::ERANGE.spec_desc() == "Math result not representable"@,
        Errno::EDEADLK.spec_name() == "EDEADLK"@,
        Errno::EDEADLK.spec_desc() == "Resource deadlock would occur"@,
        Errno::ENAMETOOLONG.spec_name() == "ENAMETOOLONG"@,
        Errno::ENAMETOOLONG.spec_desc() == "File name too long"@,
        Errno::ENOLCK.spec_name() == "ENOLCK"@,
        Errno::ENOLCK.spec_desc() == "No locks available"@,
        Errno::ENOSYS.spec_name() == "ENOSYS"@,
        Errno::ENOSYS.spec_desc() == "Invalid system call number"@,
        Errno::ENOTEMPTY.spec_name() == "ENOTEMPTY"@,
        Errno::ENOTEMPTY.spec_desc() == "Directory not empty"@,
        Errno::ELOOP.spec_name() == "ELOOP"@,
        Errno::ELOOP.spec_desc() == "Too many symbolic links encountered"@,
        Errno::ENOTSUP.spec_name() == "ENOTSUP"@,
        Errno::ENOTSUP.spec_desc() == "Not supported"@,
        Errno::ENOMSG.spec_name() == "ENOMSG"@,
        Errno::ENOMSG.spec_desc() == "No message of desired type"@,
        Errno::EIDRM.spec_name() == "EIDRM"@,
        Errno::EIDRM.spec_desc() == "Identifier removed"@,
        Errno::ECHRNG.spec_name() == "ECHRNG"@,
        Errno::ECHRNG.spec_desc() == "Channel number out of range"@,
        Errno::EL2NSYNC.spec_name() == "EL2NSYNC"@,
        Errno::EL2NSYNC.spec_desc() == "Level 2 not synchronized"@,
        Errno::EL3HLT.spec_name() == "EL3HLT"@,
        Errno::EL3HLT.spec_desc() == "Level 3 halted"@,
        Errno::EL3RST.spec_name() == "EL3RST"@,
        Errno::EL3RST.spec_desc() == "Level 3 reset"@,
        Errno::ELNRNG.spec_name() == "ELNRNG"@,
        Errno::ELNRNG.spec_desc() == "Link number out of range"@,
        Errno::EUNATCH.spec_name() == "EUNATCH"@,
        Errno::EUNATCH.spec_desc() == "Protocol driver not attached"@,
        Errno::ENOCSI.spec_name() == "ENOCSI"@,
        Errno::ENOCSI.spec_desc() == "No CSI structure available"@,
        Errno::EL2HLT.spec_name() == "EL2HLT"@,
        Errno::EL2HLT.spec_desc() == "Level 2 halted"@,
        Errno::EBADE.spec_name() == "EBADE"@,
        Errno::EBADE.spec_desc() == "Invalid exchange"@,
        Errno::EBADR.spec_name() == "EBADR"@,
        Errno::EBADR.spec_desc() == "Invalid request descriptor"@,
        Errno::EXFULL.spec_name() == "EXFULL"@,
        Errno::EXFULL.spec_desc() == "Exchange full"@,
        Errno::ENOANO.spec_name() == "ENOANO"@,
        Errno::ENOANO.spec_desc() == "No anode"@,
        Errno::EBADRQC.spec_name() == "EBADRQC"@,
        Errno::EBADRQC.spec_desc() == "Invalid request code"@,
        Errno::EBADSLT.spec_name() == "EBADSLT"@,
        Errno::EBADSLT.spec_desc() == "Invalid slot"@,
        Errno::EBFONT.spec_name() == "EBFONT"@,
        Errno::EBFONT.spec_desc() == "Bad font file format"@,
        Errno::ENOSTR.spec_name() == "ENOSTR"@,
        Errno::ENOSTR.spec_desc() == "Device not a stream"@,
        Errno::ENODATA.spec_name() == "ENODATA"@,
        Errno::ENODATA.spec_desc() == "No data available"@,
        Errno::ETIME.spec_name() == "ETIME"@,
        Errno::ETIME.spec_desc() == "Timer expired"@,
        Errno::ENOSR.spec_name() == "ENOSR"@,
        Errno::ENOSR.spec_desc() == "Out of streams resources"@,
        Errno::ENONET.spec_name() == "ENONET"@,
        Errno::ENONET.spec_desc() == "Machine is not on the network"@,
        Errno::ENOPKG.spec_name() == "ENOPKG"@,
        Errno::ENOPKG.spec_desc() == "Package not installed"@,
        Errno::EREMOTE.spec_name() == "EREMOTE"@,
        Errno::EREMOTE.spec_desc() == "Object is remote"@,
        Errno::ENOLINK.spec_name() == "ENOLINK"@,
        Errno::ENOLINK.spec_desc() == "Link has been severed"@,
        Errno::EADV.spec_name() == "EADV"@,
        Errno::EADV.spec_desc() == "Advertise error"@,
        Errno::ESRMNT.spec_name() == "ESRMNT"@,
        Errno::ESRMNT.spec_desc() == "Srmount error"@,
        Errno::ECOMM.spec_name() == "ECOMM"@,
        Errno::ECOMM.spec_desc() == "Communication error on send"@,
        Errno::EPROTO.spec_name() == "EPROTO"@,
        Errno::EPROTO.spec_desc() == "Protocol error"@,
        Errno::EMULTIHOP.spec_name() == "EMULTIHOP"@,
        Errno::EMULTIHOP.spec_desc() == "Multihop attempted"@,
        Errno::EDOTDOT.spec_name() == "EDOTDOT"@,
        Errno::EDOTDOT.spec_desc() == "RFS specific error"@,
        Errno::EBADMSG.spec_name() == "EBADMSG"@,
        Errno::EBADMSG.spec_desc() == "Not a data message"@,
        Errno::EOVERFLOW.spec_name() == "EOVERFLOW"@,
        Errno::EOVERFLOW.spec_desc() == "Value too large for defined data type"@,
        Errno::ENOTUNIQ.spec_name() == "ENOTUNIQ"@,
        Errno::ENOTUNIQ.spec_desc() == "Name not unique on network"@,
        Errno::EBADFD.spec_name() == "EBADFD"@,
        Errno::EBADFD.spec_desc() == "File descriptor in bad state"@,
        Errno::EREMCHG.spec_name() == "EREMCHG"@,
        Errno::EREMCHG.spec_desc() == "Remote address changed"@,
        Errno::ELIBACC.spec_name() == "ELIBACC"@,
        Errno::ELIBACC.spec_desc() == "Can not access a needed shared library"@,
        Errno::ELIBBAD.spec_name() == "ELIBBAD"@,
        Errno::ELIBBAD.spec_desc() == "Accessing a corrupted shared library"@,
        Errno::ELIBSCN.spec_name() == "ELIBSCN"@,
        Errno::ELIBSCN.spec_desc() == ".lib section in a.out corrupted"@,
        Errno::ELIBMAX.spec_name() == "ELIBMAX"@,
        Errno::ELIBMAX.spec_desc() == "Attempting to link in too many shared libraries"@,
        Errno::ELIBEXEC.spec_name() == "ELIBEXEC"@,
        Errno::ELIBEXEC.spec_desc() == "Cannot exec a shared library directly"@,
        Errno::EILSEQ.spec_name() == "EILSEQ"@,
        Errno::EILSEQ.spec_desc() == "Illegal byte sequence"@,
        Errno::ERESTART.spec_name() == "ERESTART"@,
        Errno::ERESTART.spec_desc() == "Interrupted system call should be restarted"@,
        Errno::ESTRPIPE.spec_name() == "ESTRPIPE"@,
        Errno::ESTRPIPE.spec_desc() == "Streams pipe error"@,
        Errno::EUSERS.spec_name() == "EUSERS"@,
        Errno::EUSERS.spec_desc() == "Too many users"@,
        Errno::ENOTSOCK.spec_name() == "ENOTSOCK"@,
        Errno::ENOTSOCK.spec_desc() == "Socket operation on non-socket"@,
        Errno::EDESTADDRREQ.spec_name() == "EDESTADDRREQ"@,
        Errno::EDESTADDRREQ.spec_desc() == "Destination address required"@,
        Errno::EMSGSIZE.spec_name() == "EMSGSIZE"@,
        Errno::EMSGSIZE.spec_desc() == "Message too long"@,
        Errno::EPROTOTYPE.spec_name() == "EPROTOTYPE"@,
        Errno::EPROTOTYPE.spec_desc() == "Protocol wrong type for socket"@,
        Errno::ENOPROTOOPT.spec_name() == "ENOPROTOOPT"@,
        Errno::ENOPROTOOPT.spec_desc() == "Protocol not available"@,
        Errno::EPROTONOSUPPORT.spec_name() == "EPROTONOSUPPORT"@,
        Errno::EPROTONOSUPPORT.spec_desc() == "Protocol not supported"@,
        Errno::ESOCKTNOSUPPORT.spec_name() == "ESOCKTNOSUPPORT"@,
        Errno::ESOCKTNOSUPPORT.spec_desc() == "Socket type not supported"@,
        Errno::EOPNOTSUPP.spec_name() == "EOPNOTSUPP"@,
        Errno::EOPNOTSUPP.spec_desc() == "Operation not supported on transport endpoint"@,
        Errno::EPFNOSUPPORT.spec_name() == "EPFNOSUPPORT"@,
        Errno::EPFNOSUPPORT.spec_desc() == "Protocol family not supported"@,
        Errno::EAFNOSUPPORT.spec_name() == "EAFNOSUPPORT"@,
        Errno::EAFNOSUPPORT.spec_desc() == "Address family not supported by protocol"@,
        Errno::EADDRINUSE.spec_name() == "EADDRINUSE"@,
        Errno::EADDRINUSE.spec_desc() == "Address already in use"@,
        Errno::EADDRNOTAVAIL.spec_name() == "EADDRNOTAVAIL"@,
        Errno::EADDRNOTAVAIL.spec_desc() == "Cannot assign requested address"@,
        Errno::ENETDOWN.spec_name() == "ENETDOWN"@,
        Errno::ENETDOWN.spec_desc() == "Network is down"@,
        Errno::ENETUNREACH.spec_name() == "ENETUNREACH"@,
        Errno::ENETUNREACH.spec_desc() == "Network is unreachable"@,
        Errno::ENETRESET.spec_name() == "ENETRESET"@,
        Errno::ENETRESET.spec_desc() == "Network dropped connection because of reset"@,
        Errno::ECONNABORTED.spec_name() == "ECONNABORTED"@,
        Errno::ECONNABORTED.spec_desc() == "Software caused connection abort"@,
        Errno::ECONNRESET.spec_name() == "ECONNRESET"@,
        Errno::ECONNRESET.spec_desc() == "Connection reset by peer"@,
        Errno::ENOBUFS.spec_name() == "ENOBUFS"@,
        Errno::ENOBUFS.spec_desc() == "No buffer space available"@,
        Errno::EISCONN.spec_name() == "EISCONN"@,
        Errno::EISCONN.spec_desc() == "Transport endpoint is already connected"@,
        Errno::ENOTCONN.spec_name() == "ENOTCONN"@,
        Errno::ENOTCONN.spec_desc() == "Transport endpoint is not connected"@,
        Errno::ESHUTDOWN.spec_name() == "ESHUTDOWN"@,
        Errno::ESHUTDOWN.spec_desc() == "Cannot send after transport endpoint shutdown"@,
        Errno::ETOOMANYREFS.spec_name() == "ETOOMANYREFS"@,
        Errno::ETOOMANYREFS.spec_desc() == "Too many references: cannot splice"@,
        Errno::ETIMEDOUT.spec_name() == "ETIMEDOUT"@,
        Errno::ETIMEDOUT.spec_desc() == "Connection (or other operation) timed out"@,
        Errno::ECONNREFUSED.spec_name() == "ECONNREFUSED"@,
        Errno::ECONNREFUSED.spec_desc() == "Connection refused"@,
        Errno::EHOSTDOWN.spec_name() == "EHOSTDOWN"@,
        Errno::EHOSTDOWN.spec_desc() == "Host is down"@,
        Errno::EHOSTUNREACH.spec_name() == "EHOSTUNREACH"@,
        Errno::EHOSTUNREACH.spec_desc() == "No route to host"@,
        Errno::EALREADY.spec_name() == "EALREADY"@,
        Errno::EALREADY.spec_desc() == "Operation already in progress"@,
        Errno::EINPROGRESS.spec_name() == "EINPROGRESS"@,
        Errno::EINPROGRESS.spec_desc() == "Operation now in progress"@,
        Errno::ESTALE.spec_name() == "ESTALE"@,
        Errno::ESTALE.spec_desc() == "Stale file handle"@,
        Errno::EUCLEAN.spec_name() == "EUCLEAN"@,
        Errno::EUCLEAN.spec_desc() == "Structure needs cleaning"@,
        Errno::ENOTNAM.spec_name() == "ENOTNAM"@,
        Errno::ENOTNAM.spec_desc() == "Not a XENIX named type file"@,
        Errno::ENAVAIL.spec_name() == "ENAVAIL"@,
        Errno::ENAVAIL.spec_desc() == "No XENIX semaphores available"@,
        Errno::EISNAM.spec_name() == "EISNAM"@,
        Errno::EISNAM.spec_desc() == "Is a named type file"@,
        Errno::EREMOTEIO.spec_name() == "EREMOTEIO"@,
        Errno::EREMOTEIO.spec_desc() == "Remote I/O error"@,
        Errno::EDQUOT.spec_name() == "EDQUOT"@,
        Errno::EDQUOT.spec_desc() == "Quota exceeded"@,
        Errno::ENOMEDIUM.spec_name() == "ENOMEDIUM"@,
        Errno::ENOMEDIUM.spec_desc() == "No medium found"@,
        Errno::EMEDIUMTYPE.spec_name() == "EMEDIUMTYPE"@,
        Errno::EMEDIUMTYPE.spec_desc() == "Wrong medium type"@,
        Errno::ECANCELED.spec_name() == "ECANCELED"@,
        Errno::ECANCELED.spec_desc() == "Operation Canceled"@,
        Errno::ENOKEY.spec_name() == "ENOKEY"@,
        Errno::ENOKEY.spec_desc() == "Required key not available"@,
        Errno::EKEYEXPIRED.spec_name() == "EKEYEXPIRED"@,
        Errno::EKEYEXPIRED.spec_desc() == "Key has expired"@,
        Errno::EKEYREVOKED.spec_name() == "EKEYREVOKED"@,
        Errno::EKEYREVOKED.spec_desc() == "Key has been revoked"@,
        Errno::EKEYREJECTED.spec_name() == "EKEYREJECTED"@,
        Errno::EKEYREJECTED.spec_desc() == "Key was rejected by service"@,
        Errno::EOWNERDEAD.spec_name() == "EOWNERDEAD"@,
        Errno::EOWNERDEAD.spec_desc() == "Owner died"@,
        Errno::ENOTRECOVERABLE.spec_name() == "ENOTRECOVERABLE"@,
        Errno::ENOTRECOVERABLE.spec_desc() == "State not recoverable"@,
        Errno::ERFKILL.spec_name() == "ERFKILL"@,
        Errno::ERFKILL.spec_desc() == "Operation not possible due to RF-kill"@,
        Errno::EHWPOISON.spec_name() == "EHWPOISON"@,
        Errno::EHWPOISON.spec_desc() == "Memory page has hardware error"@,
        Errno::EASSERT.spec_name() == "EASSERT"@,
        Errno::EASSERT.spec_desc() == "Assertion failed"@,
{
}

/// A number names an error exactly when it is valid, and then that error has this number.
pub proof fn lemma_errno_of_code(c: int)
    ensures
        errno_of_code(c) is Some <==> is_errno_code(c),
        errno_of_code(c) is Some ==> errno_of_code(c)->0.spec_code() == c,
{
}

/// The error named by the magnitude of a negative status word.
pub open spec fn neg_errno(word: int) -> Errno {
    errno_of_code(-word).unwrap()
}

/// The error named by the low 32 bits of the magnitude of a negative status word.
pub open spec fn neg_errno_low(word: int) -> Errno {
    errno_of_code((-word) % 0x1_0000_0000).unwrap()
}

/// The result that a status word stands for: success with `ok` when the word
/// is not negative, else the error that `err` names.
pub open spec fn status_result<T>(word: int, ok: T, err: Errno) -> EResult<T> {
    if word < 0 {
        Err(err)
    } else {
        Ok(ok)
    }
}

/// The status word that stands for a result: the success value, or the
/// negated number of the error.
pub open spec fn result_word<T>(res: EResult<T>, ok_word: spec_fn(T) -> int) -> int {
    match res {
        Ok(x) => ok_word(x),
        Err(e) => -e.spec_code(),
    }
}

/// A failed result's status word is the negated number of its error, and a
/// negative status word is read back as the error with that number: with
/// the numbers of [`lemma_linux_error_numbers`], `EIO` travels as -5.
pub proof fn lemma_error_status_words(e: Errno)
    ensures
        result_word(Err::<i32, Errno>(e), |x: i32| x as int) == -e.spec_code(),
        result_word(Err::<i64, Errno>(e), |x: i64| x as int) == -e.spec_code(),
        is_errno_code(e.spec_code()),
        neg_errno(-e.spec_code()) == e,
        status_result(-e.spec_code(), 0i32, neg_errno(-e.spec_code())) == Err::<i32, Errno>(e),
{
    lemma_code_names_errno(e);
}

impl Errno {
    /// The error for a valid error number.
    fn from_valid_code(c: i32) -> (r: Errno)
        requires
            is_errno_code(c as int),
        ensures
            errno_of_code(c as int) == Some(r),
            r.spec_code() == c,
    {
        proof {
            lemma_errno_of_code(c as int);
        }
        match Self::from_code(c) {
            Some(e) => e,
            None => Errno::EPERM,
        }
    }

    /// The error named by the low 32 bits of a positive number.
    fn from_low_bits(c: u64) -> (r: Errno)
        requires
            is_errno_code((c % 0x1_0000_0000) as int),
        ensures
            errno_of_code((c % 0x1_0000_0000) as int) == Some(r),
    {
        let low: u64 = c % 0x1_0000_0000u64;
        Self::from_valid_code(low as i32)
    }

    /// Create an `EResult` from some integer.
    pub fn check_bool(errno: i32) -> (r: EResult<bool>)
        requires
            errno < 0 ==> is_errno_code(-errno),
        ensures
            r == status_result(errno as int, errno != 0, neg_errno(errno as int)),
    {
        if errno < 0 {
            Err(Self::from_valid_code(-errno))
        } else {
            Ok(errno != 0)
        }
    }

    /// Create an `EResult` from some integer.
    pub fn check_i32(errno: i32) -> (r: EResult<i32>)
        requires
            errno < 0 ==> is_errno_code(-errno),
        ensures
            r == status_result(errno as int, errno, neg_errno(errno as int)),
    {
        if errno < 0 {
            Err(Self::from_valid_code(-errno))
        } else {
            Ok(errno)
        }
    }

    /// Create an `EResult` from some integer.
    pub fn check_i64(errno: i64) -> (r: EResult<i64>)
        requires
            errno > i64::MIN,
            errno < 0 ==> is_errno_code((-errno) % 0x1_0000_0000),
        ensures
            r == status_result(errno as int, errno, neg_errno_low(errno as int)),
    {
        if errno < 0 {
            Err(Self::from_low_bits((-errno) as u64))
        } else {
            Ok(errno)
        }
    }

    /// Create an `EResult` from some integer.
    pub fn check_u32(errno: i32) -> (r: EResult<u32>)
        requires
            errno < 0 ==> is_errno_code(-errno),
        ensures
            r == status_result(errno as int, errno as u32, neg_errno(errno as int)),
    {
        if errno < 0 {
            Err(Self::from_valid_code(-errno))
        } else {
            Ok(errno as u32)
        }
    }

    /// Create an `EResult` from some integer.
    pub fn check_u64(errno: i64) -> (r: EResult<u64>)
        requires
            errno > i64::MIN,
            errno < 0 ==> is_errno_code((-errno) % 0x1_0000_0000),
        ensures
            r == status_result(errno as int, errno as u64, neg_errno_low(errno as int)),
    {
        if errno < 0 {
            Err(Self::from_low_bits((-errno) as u64))
        } else {
            Ok(errno as u64)
        }
    }

    /// Create an `EResult` from some integer.
    pub fn check_isize(errno: isize) -> (r: EResult<isize>)
        requires
            errno > isize::MIN,
            errno < 0 ==> is_errno_code((-errno) % 0x1_0000_0000),
        ensures
            r == status_result(errno as int, errno, neg_errno_low(errno as int)),
    {
        if errno < 0 {
            Err(Self::from_low_bits((-errno) as u64))
        } else {
            Ok(errno)
        }
    }

    /// Create an `EResult` from some integer.
    pub fn check_usize(errno: isize) -> (r: EResult<usize>)
        requires
            errno > isize::MIN,
            errno < 0 ==> is_errno_code((-errno) % 0x1_0000_0000),
        ensures
            r == status_result(errno as int, errno as usize, neg_errno_low(errno as int)),
    {
        if errno < 0 {
            Err(Self::from_low_bits((-errno) as u64))
        } else {
            Ok(errno as usize)
        }
    }

    /// Create an `EResult` from some integer.
    pub fn check(errno: i32) -> (r: EResult<()>)
        requires
            errno < 0 ==> is_errno_code(-errno),
        ensures
            r == status_result(errno as int, (), neg_errno(errno as int)),
    {
        if errno < 0 {
            Err(Self::from_valid_code(-errno))
        } else {
            Ok(())
        }
    }

    /// Convert an `EResult` into an integer.
    pub fn extract_i32(res: EResult<i32>) -> (r: i32)
        ensures
            r == result_word(res, |x: i32| x as int),
    {
        match res {
            Ok(x) => x,
            Err(x) => -x.code(),
        }
    }

    /// Convert an `EResult` into an integer.
    pub fn extract_i64(res: EResult<i64>) -> (r: i64)
        ensures
            r == result_word(res, |x: i64| x as int),
    {
        match res {
            Ok(x) => x,
            Err(x) => -(x.code() as i64),
        }
    }

    /// Convert an `EResult` into an integer.
    pub fn extract_u32(res: EResult<u32>) -> (r: i32)
        ensures
            r == result_word(res, |x: u32| wrap_i32(x as int)),
    {
        match res {
            Ok(x) => {
                assert(x > 0x7fff_ffff ==> (x as i32) == x - 0x1_0000_0000) by (bit_vector);
                x as i32
            },
            Err(x) => -x.code(),
        }
    }

    /// Convert an `EResult` into an integer.
    pub fn extract_u64(res: EResult<u64>) -> (r: i64)
        ensures
            r == result_word(res, |x: u64| wrap_i64(x as int)),
    {
        match res {
            Ok(x) => {
                assert(x > 0x7fff_ffff_ffff_ffff ==> (x as i64) == x - 0x1_0000_0000_0000_0000)
                    by (bit_vector);
                x as i64
            },
            Err(x) => -(x.code() as i64),
        }
    }

    /// Convert an `EResult` into an integer.
    pub fn extract_bool(res: EResult<bool>) -> (r: i32)
        ensures
            r == result_word(res, |x: bool| if x { 1int } else { 0int }),
    {
        match res {
            Ok(x) => if x { 1 } else { 0 },
            Err(x) => -x.code(),
        }
    }

    /// Convert an `EResult` into an integer.
    pub fn extract(res: EResult<()>) -> (r: i32)
        ensures
            r == result_word(res, |x: ()| 0int),
    {
        match res {
            Ok(()) => 0,
            Err(x) => -x.code(),
        }
    }

    /// Convert an `EResult` into an integer.
    pub fn extract_isize(res: EResult<isize>) -> (r: isize)
        ensures
            r == result_word(res, |x: isize| x as int),
    {
        match res {
            Ok(x) => x,
            Err(x) => -(x.code() as isize),
        }
    }

    /// Convert an `EResult` into an integer.
    pub fn extract_usize(res: EResult<usize>) -> (r: isize)
        ensures
            r == result_word(res, |x: usize| wrap_isize(x as int)),
    {
        match res {
            Ok(x) => {
                if x <= isize::MAX as usize {
                    x as isize
                } else {
                    -((usize::MAX - x) as isize) - 1
                }
            },
            Err(x) => -(x.code() as isize),
        }
    }
}

/// `x`, taken modulo 2^32, as a two's-complement 32-bit number.
pub open spec fn wrap_i32(x: int) -> int {
    if x <= i32::MAX { x } else { x - 0x1_0000_0000 }
}

/// `x`, taken modulo 2^64, as a two's-complement 64-bit number.
pub open spec fn wrap_i64(x: int) -> int {
    if x <= i64::MAX { x } else { x - 0x1_0000_0000_0000_0000 }
}

/// `x` as a two's-complement pointer-sized number.
pub open spec fn wrap_isize(x: int) -> int {
    if x <= isize::MAX { x } else { x - usize::MAX - 1 }
}

/// Turning a result into a status word and back gives the result again.
pub proof fn lemma_extract_then_check_i32(res: EResult<i32>)
    requires
        res is Ok ==> res->Ok_0 >= 0,
    ensures
        ({
            let w = result_word(res, |x: i32| x as int);
            &&& w < 0 ==> is_errno_code(-w)
            &&& status_result(w, w as i32, neg_errno(w)) == res
        }),
{
    if let Err(e) = res {
        lemma_code_names_errno(e);
    }
}

/// A status word turned into a result and back is the same word.
pub proof fn lemma_check_then_extract_i32(word: i32)
    requires
        word < 0 ==> is_errno_code(-word),
    ensures
        result_word(status_result(word as int, word, neg_errno(word as int)), |x: i32| x as int)
            == word,
{
    if word < 0 {
        lemma_errno_of_code(-word);
    }
}

} // verus!
