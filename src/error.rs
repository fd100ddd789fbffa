//! Machine-readable codes for the kinds of input/output failure.

use vstd::prelude::*;

verus! {

/// The kinds of input/output failure that have a code of their own.
#[derive(Clone, Copy, Debug, PartialEq, Eq, Structural)]
pub enum ErrorKind {
    NotFound,
    PermissionDenied,
    ConnectionRefused,
    ConnectionReset,
    ConnectionAborted,
    NotConnected,
    AddrInUse,
    AddrNotAvailable,
    BrokenPipe,
    AlreadyExists,
    WouldBlock,
    InvalidInput,
    InvalidData,
    TimedOut,
    WriteZero,
    Interrupted,
    UnexpectedEof,
    Other,
}

/// The code of each kind: `F001` to `F017` in the order above, `F0XX` for
/// any other.
pub open spec fn code_of(kind: ErrorKind) -> &'static str {
    match kind {
        ErrorKind::NotFound => "F001",
        ErrorKind::PermissionDenied => "F002",
        ErrorKind::ConnectionRefused => "F003",
        ErrorKind::ConnectionReset => "F004",
        ErrorKind::ConnectionAborted => "F005",
        ErrorKind::NotConnected => "F006",
        ErrorKind::AddrInUse => "F007",
        ErrorKind::AddrNotAvailable => "F008",
        ErrorKind::BrokenPipe => "F009",
        ErrorKind::AlreadyExists => "F010",
        ErrorKind::WouldBlock => "F011",
        ErrorKind::InvalidInput => "F012",
        ErrorKind::InvalidData => "F013",
        ErrorKind::TimedOut => "F014",
        ErrorKind::WriteZero => "F015",
        ErrorKind::Interrupted => "F016",
        ErrorKind::UnexpectedEof => "F017",
        ErrorKind::Other => "F0XX",
    }
}

impl ErrorKind {
    /// The machine-readable code of this kind.
    pub fn code(&self) -> (r: &'static str)
        ensures
            r == code_of(*self),
    {
        match *self {
            ErrorKind::NotFound => "F001",
            ErrorKind::PermissionDenied => "F002",
            ErrorKind::ConnectionRefused => "F003",
            ErrorKind::ConnectionReset => "F004",
            ErrorKind::ConnectionAborted => "F005",
            ErrorKind::NotConnected => "F006",
            ErrorKind::AddrInUse => "F007",
            ErrorKind::AddrNotAvailable => "F008",
            ErrorKind::BrokenPipe => "F009",
            ErrorKind::AlreadyExists => "F010",
            ErrorKind::WouldBlock => "F011",
            ErrorKind::InvalidInput => "F012",
            ErrorKind::InvalidData => "F013",
            ErrorKind::TimedOut => "F014",
            ErrorKind::WriteZero => "F015",
            ErrorKind::Interrupted => "F016",
            ErrorKind::UnexpectedEof => "F017",
            ErrorKind::Other => "F0XX",
        }
    }
}

} // verus!
