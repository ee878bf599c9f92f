//! Errors, and the result codes of LMDB they stand for.

use vstd::prelude::*;

verus! {

/// Success.
pub const MDB_SUCCESS: i32 = 0;

/// The key/data pair already exists.
pub const MDB_KEYEXIST: i32 = -30799;

/// The key/data pair was not found.
pub const MDB_NOTFOUND: i32 = -30798;

/// A requested page was not found.
pub const MDB_PAGE_NOTFOUND: i32 = -30797;

/// A located page was of the wrong type.
pub const MDB_CORRUPTED: i32 = -30796;

/// The update of the meta page failed, or the environment had a fatal error.
pub const MDB_PANIC: i32 = -30795;

/// The version of the environment does not match that of the library.
pub const MDB_VERSION_MISMATCH: i32 = -30794;

/// The file is not a valid LMDB file.
pub const MDB_INVALID: i32 = -30793;

/// The map size was reached.
pub const MDB_MAP_FULL: i32 = -30792;

/// The maximum number of databases was reached.
pub const MDB_DBS_FULL: i32 = -30791;

/// The maximum number of readers was reached.
pub const MDB_READERS_FULL: i32 = -30790;

/// Too many thread-local-storage keys are in use.
pub const MDB_TLS_FULL: i32 = -30789;

/// The transaction has too many dirty pages.
pub const MDB_TXN_FULL: i32 = -30788;

/// The cursor stack is too deep.
pub const MDB_CURSOR_FULL: i32 = -30787;

/// A page has not enough space.
pub const MDB_PAGE_FULL: i32 = -30786;

/// The map was resized by another process.
pub const MDB_MAP_RESIZED: i32 = -30785;

/// The operation and the database are incompatible.
pub const MDB_INCOMPATIBLE: i32 = -30784;

/// A reader locktable slot was reused in an invalid way.
pub const MDB_BAD_RSLOT: i32 = -30783;

/// The transaction must abort, has a child, or is invalid.
pub const MDB_BAD_TXN: i32 = -30782;

/// The size of a key, a database name or a data item is not supported.
pub const MDB_BAD_VALSIZE: i32 = -30781;

/// The database handle was closed or changed unexpectedly.
pub const MDB_BAD_DBI: i32 = -30780;

/// What an operation on an environment, a database or a cursor failed with.
#[derive(Clone, Copy, Debug, PartialEq, Eq, Structural)]
pub enum Error {
    /// The key/data pair already exists.
    KeyExist,
    /// The key/data pair was not found.
    NotFound,
    /// A requested page was not found.
    PageNotFound,
    /// A located page was of the wrong type.
    Corrupted,
    /// The update of the meta page failed, or the environment had a fatal error.
    Panic,
    /// The version of the environment does not match that of the library.
    VersionMismatch,
    /// The file is not a valid LMDB file, or an argument is not usable.
    Invalid,
    /// The map size was reached.
    MapFull,
    /// The maximum number of databases was reached.
    DbsFull,
    /// The maximum number of readers was reached.
    ReadersFull,
    /// Too many thread-local-storage keys are in use.
    TlsFull,
    /// The transaction has too many dirty pages.
    TxnFull,
    /// The cursor stack is too deep.
    CursorFull,
    /// A page has not enough space.
    PageFull,
    /// The map was resized by another process.
    MapResized,
    /// The operation and the database are incompatible.
    Incompatible,
    /// A reader locktable slot was reused in an invalid way.
    BadRslot,
    /// The transaction must abort, has a child, or is invalid.
    BadTxn,
    /// The size of a key, a database name or a data item is not supported.
    BadValSize,
    /// The database handle was closed or changed unexpectedly.
    BadDbi,
    /// Any other code: an error number of the operating system.
    Other(i32),
}

/// The error that a result code stands for.
pub open spec fn error_of_code(code: i32) -> Error {
    if code == MDB_KEYEXIST {
        Error::KeyExist
    } else if code == MDB_NOTFOUND {
        Error::NotFound
    } else if code == MDB_PAGE_NOTFOUND {
        Error::PageNotFound
    } else if code == MDB_CORRUPTED {
        Error::Corrupted
    } else if code == MDB_PANIC {
        Error::Panic
    } else if code == MDB_VERSION_MISMATCH {
        Error::VersionMismatch
    } else if code == MDB_INVALID {
        Error::Invalid
    } else if code == MDB_MAP_FULL {
        Error::MapFull
    } else if code == MDB_DBS_FULL {
        Error::DbsFull
    } else if code == MDB_READERS_FULL {
        Error::ReadersFull
    } else if code == MDB_TLS_FULL {
        Error::TlsFull
    } else if code == MDB_TXN_FULL {
        Error::TxnFull
    } else if code == MDB_CURSOR_FULL {
        Error::CursorFull
    } else if code == MDB_PAGE_FULL {
        Error::PageFull
    } else if code == MDB_MAP_RESIZED {
        Error::MapResized
    } else if code == MDB_INCOMPATIBLE {
        Error::Incompatible
    } else if code == MDB_BAD_RSLOT {
        Error::BadRslot
    } else if code == MDB_BAD_TXN {
        Error::BadTxn
    } else if code == MDB_BAD_VALSIZE {
        Error::BadValSize
    } else if code == MDB_BAD_DBI {
        Error::BadDbi
    } else {
        Error::Other(code)
    }
}

/// What a result code means: success for `MDB_SUCCESS` alone, an error for every other code.
pub open spec fn result_of_code(code: i32) -> Result<(), Error> {
    if code == MDB_SUCCESS {
        Ok(())
    } else {
        Err(error_of_code(code))
    }
}

impl Error {
    /// The error that a result code stands for.
    pub fn from_err_code(code: i32) -> (error: Error)
        ensures
            error == error_of_code(code),
    {
        match code {
            MDB_KEYEXIST => Error::KeyExist,
            MDB_NOTFOUND => Error::NotFound,
            MDB_PAGE_NOTFOUND => Error::PageNotFound,
            MDB_CORRUPTED => Error::Corrupted,
            MDB_PANIC => Error::Panic,
            MDB_VERSION_MISMATCH => Error::VersionMismatch,
            MDB_INVALID => Error::Invalid,
            MDB_MAP_FULL => Error::MapFull,
            MDB_DBS_FULL => Error::DbsFull,
            MDB_READERS_FULL => Error::ReadersFull,
            MDB_TLS_FULL => Error::TlsFull,
            MDB_TXN_FULL => Error::TxnFull,
            MDB_CURSOR_FULL => Error::CursorFull,
            MDB_PAGE_FULL => Error::PageFull,
            MDB_MAP_RESIZED => Error::MapResized,
            MDB_INCOMPATIBLE => Error::Incompatible,
            MDB_BAD_RSLOT => Error::BadRslot,
            MDB_BAD_TXN => Error::BadTxn,
            MDB_BAD_VALSIZE => Error::BadValSize,
            MDB_BAD_DBI => Error::BadDbi,
            other => Error::Other(other),
        }
    }
}

/// Turns a result code into a `Result`.
pub fn lmdb_result(code: i32) -> (result: Result<(), Error>)
    ensures
        result == result_of_code(code),
{
    if code == MDB_SUCCESS {
        Ok(())
    } else {
        Err(Error::from_err_code(code))
    }
}

/// No two result codes stand for the same error, so an error tells its code.
pub proof fn codes_are_distinguished(a: i32, b: i32)
    ensures
        error_of_code(a) == error_of_code(b) <==> a == b,
{
}

/// The result code that an error is reported by. LMDB's own codes are the twenty numbers from -30799
/// to -30780; every other code is an error number of the operating system.
pub open spec fn number_of(error: Error) -> int {
    match error {
        Error::KeyExist => -30799,
        Error::NotFound => -30798,
        Error::PageNotFound => -30797,
        Error::Corrupted => -30796,
        Error::Panic => -30795,
        Error::VersionMismatch => -30794,
        Error::Invalid => -30793,
        Error::MapFull => -30792,
        Error::DbsFull => -30791,
        Error::ReadersFull => -30790,
        Error::TlsFull => -30789,
        Error::TxnFull => -30788,
        Error::CursorFull => -30787,
        Error::PageFull => -30786,
        Error::MapResized => -30785,
        Error::Incompatible => -30784,
        Error::BadRslot => -30783,
        Error::BadTxn => -30782,
        Error::BadValSize => -30781,
        Error::BadDbi => -30780,
        Error::Other(code) => code as int,
    }
}

/// Whether a code is one of LMDB's own.
pub open spec fn is_code_of_lmdb(code: i32) -> bool {
    -30799 <= code <= -30780
}

/// Whether an error is the one that a result code reports: it has that code, and it is a named one
/// just where the code is one of LMDB's own.
pub open spec fn stands_for(error: Error, code: i32) -> bool {
    &&& number_of(error) == code
    &&& error is Other <==> !is_code_of_lmdb(code)
}

/// There is one error for each result code, and it is the one that codes are turned into.
pub proof fn an_error_tells_its_code(code: i32, error: Error)
    ensures
        stands_for(error, code) <==> error == error_of_code(code),
{
}

/// A result code of zero is success, and no other is. Any other code fails with its own error.
pub proof fn only_zero_is_success(code: i32)
    ensures
        match result_of_code(code) {
            Ok(()) => code == 0,
            Err(error) => code != 0 && stands_for(error, code),
        },
{
}

} // verus!
