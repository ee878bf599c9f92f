//! Errors and result codes.

use lmdb::error::{lmdb_result, MDB_BAD_DBI, MDB_KEYEXIST, MDB_SUCCESS};
use lmdb::Error;

#[test]
fn each_code_stands_for_its_error() {
    let named = [
        Error::KeyExist,
        Error::NotFound,
        Error::PageNotFound,
        Error::Corrupted,
        Error::Panic,
        Error::VersionMismatch,
        Error::Invalid,
        Error::MapFull,
        Error::DbsFull,
        Error::ReadersFull,
        Error::TlsFull,
        Error::TxnFull,
        Error::CursorFull,
        Error::PageFull,
        Error::MapResized,
        Error::Incompatible,
        Error::BadRslot,
        Error::BadTxn,
        Error::BadValSize,
        Error::BadDbi,
    ];
    for (code, error) in (MDB_KEYEXIST..=MDB_BAD_DBI).zip(named) {
        assert_eq!(Error::from_err_code(code), error);
        assert_eq!(lmdb_result(code), Err(error));
    }
    assert_eq!(MDB_BAD_DBI - MDB_KEYEXIST, 19);
    assert_eq!(lmdb_result(MDB_SUCCESS), Ok(()));
    assert_eq!(lmdb_result(libc::ENOENT), Err(Error::Other(libc::ENOENT)));
    assert_eq!(lmdb_result(-1), Err(Error::Other(-1)));
}
