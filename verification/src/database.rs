//! Database handles, and opening them.

use vstd::prelude::*;
use vstd::utf8::*;

use crate::error::Error;
use crate::flags::{DatabaseFlags, MDB_CREATE};

verus! {

/// A handle to an individual database in an environment.
///
/// A database handle denotes the name and parameters of a database in an environment.
#[derive(Clone, Copy, Debug, PartialEq, Eq, Structural)]
pub struct Database {
    pub dbi: u32,
}

/// Whether a name can be handed to LMDB, which takes it as a string that a null character ends.
pub open spec fn is_name(name: Option<&str>) -> bool {
    match name {
        Some(name) => !name@.contains('\0'),
        None => true,
    }
}

/// The encoding of a character has a zero byte in it just where the character is the null
/// character.
proof fn lemma_null_scalar(scalar: u32)
    requires
        is_scalar(scalar),
    ensures
        encode_scalar(scalar).contains(0u8) <==> scalar == 0,
{
    assert(scalar <= 0x7f ==> (leading_byte_width_1(scalar) == 0 <==> scalar == 0))
        by (bit_vector);
    assert(leading_byte_width_2(scalar) != 0) by (bit_vector);
    assert(leading_byte_width_3(scalar) != 0) by (bit_vector);
    assert(leading_byte_width_4(scalar) != 0) by (bit_vector);
    assert(last_continuation_byte(scalar) != 0) by (bit_vector);
    assert(second_last_continuation_byte(scalar) != 0) by (bit_vector);
    assert(third_last_continuation_byte(scalar) != 0) by (bit_vector);
    if scalar == 0 {
        assert(encode_scalar(scalar)[0] == 0);
    }
}

/// A string has a zero byte in it just where it has the null character in it.
proof fn lemma_null_string(chars: Seq<char>)
    ensures
        encode_utf8(chars).contains(0u8) <==> chars.contains('\0'),
    decreases chars.len(),
{
    if chars.len() > 0 {
        let first = encode_scalar(chars[0] as u32);
        let rest = encode_utf8(chars.drop_first());
        char_is_scalar(chars[0]);
        char_u32_cast(chars[0], chars[0] as u32);
        lemma_null_scalar(chars[0] as u32);
        lemma_null_string(chars.drop_first());
        let whole = first + rest;
        if first.contains(0u8) {
            let i = choose|i: int| 0 <= i < first.len() && first[i] == 0u8;
            assert(whole[i] == 0u8);
            assert(chars[0] == '\0');
        }
        if rest.contains(0u8) {
            let i = choose|i: int| 0 <= i < rest.len() && rest[i] == 0u8;
            assert(whole[first.len() + i] == 0u8);
            let j = choose|j: int|
                0 <= j < chars.drop_first().len() && chars.drop_first()[j] == '\0';
            assert(chars[j + 1] == '\0');
        }
        if whole.contains(0u8) {
            let i = choose|i: int| 0 <= i < whole.len() && whole[i] == 0u8;
            if i < first.len() {
                assert(first[i] == 0u8);
            } else {
                assert(rest[i - first.len()] == 0u8);
            }
        }
        if chars.contains('\0') {
            let j = choose|j: int| 0 <= j < chars.len() && chars[j] == '\0';
            if j > 0 {
                assert(chars.drop_first()[j - 1] == '\0');
            }
        }
    }
}

impl Database {
    /// The handle that opening a database ended with, given its result code.
    pub fn new(code: i32, dbi: u32) -> (database: Result<Database, Error>)
        ensures
            database == match crate::error::result_of_code(code) {
                Ok(()) => Ok(Database { dbi }),
                Err(error) => Err(error),
            },
    {
        match crate::error::lmdb_result(code) {
            Ok(()) => Ok(Database { dbi }),
            Err(error) => Err(error),
        }
    }

    /// Checks the name of a database, which is input: one with a null character in it is refused.
    pub fn check_name(name: Option<&str>) -> (result: Result<(), Error>)
        ensures
            result == if is_name(name) {
                Ok(())
            } else {
                Err(Error::Invalid)
            },
    {
        match name {
            Some(name) => {
                proof {
                    lemma_null_string(name@);
                }
                if has_null(name.as_bytes()) {
                    Err(Error::Invalid)
                } else {
                    Ok(())
                }
            },
            None => Ok(()),
        }
    }

    /// The database that LMDB keeps its lists of free pages in.
    pub fn freelist_db() -> (database: Database)
        ensures
            database.dbi == 0,
    {
        Database { dbi: 0 }
    }

    /// Returns the underlying LMDB database handle.
    ///
    /// The caller must not use the handle after the lifetime of the environment, or after the
    /// database has been closed.
    pub fn dbi(&self) -> (dbi: u32)
        ensures
            dbi == self.dbi,
    {
        self.dbi
    }
}

/// Whether there is a null character among these bytes.
pub(crate) fn has_null(bytes: &[u8]) -> (found: bool)
    ensures
        found == bytes@.contains(0u8),
{
    let mut i: usize = 0;
    while i < bytes.len()
        invariant
            i <= bytes@.len(),
            forall|j: int| 0 <= j < i ==> bytes@[j] != 0,
        decreases bytes@.len() - i,
    {
        if bytes[i] == 0 {
            return true;
        }
        i += 1;
    }
    false
}

/// How far opening a database has come.
#[derive(Clone, Copy, Debug, PartialEq, Eq)]
pub enum DatabaseStage {
    /// There is no transaction yet.
    Begin,
    /// The database is to be opened in the transaction.
    Open,
    /// The transaction is to be committed, so that the handle stays.
    Commit { database: Database },
    /// Opening is over, with this result.
    Finished { result: Result<Database, Error> },
}

/// What is to be done next to open a database.
#[derive(Clone, Copy, Debug, PartialEq, Eq)]
pub enum DatabaseAction {
    /// Begin a read-only transaction.
    BeginRoTxn,
    /// Begin a read-write transaction, with no headroom asked for.
    BeginRwTxn,
    /// Open the database with these flags.
    Open(u32),
    /// Commit the transaction.
    Commit,
    /// Nothing: opening is over, with this result. A transaction that was begun and not committed
    /// is to be dropped.
    Done(Result<Database, Error>),
}

/// What was done to open a database.
#[derive(Clone, Copy, Debug, PartialEq, Eq)]
pub enum DatabaseEvent {
    /// The transaction was begun, or not.
    Begun(Result<(), Error>),
    /// The database was opened, with this result code and this handle.
    Opened(i32, u32),
    /// The transaction was committed, or not.
    Committed(Result<(), Error>),
}

/// Opening a database, or creating it where flags for that are given.
#[derive(Clone, Copy, Debug)]
pub struct DatabaseOpening {
    pub name_is_usable: bool,
    pub creation: Option<DatabaseFlags>,
    pub stage: DatabaseStage,
}

impl DatabaseOpening {
    /// What is to be done at this stage.
    pub open spec fn next_action(self) -> DatabaseAction {
        match self.stage {
            DatabaseStage::Begin => if self.creation is Some {
                DatabaseAction::BeginRwTxn
            } else {
                DatabaseAction::BeginRoTxn
            },
            DatabaseStage::Open => match self.creation {
                Some(flags) => DatabaseAction::Open(flags.bits | MDB_CREATE),
                None => DatabaseAction::Open(0),
            },
            DatabaseStage::Commit { database } => DatabaseAction::Commit,
            DatabaseStage::Finished { result } => DatabaseAction::Done(result),
        }
    }

    /// The stage after an event; one that does not answer the action changes nothing.
    pub open spec fn stage_after(self, event: DatabaseEvent) -> DatabaseStage {
        match (self.stage, event) {
            (DatabaseStage::Begin, DatabaseEvent::Begun(reply)) => match reply {
                Ok(()) => if self.name_is_usable {
                    DatabaseStage::Open
                } else {
                    DatabaseStage::Finished { result: Err(Error::Invalid) }
                },
                Err(error) => DatabaseStage::Finished { result: Err(error) },
            },
            (DatabaseStage::Open, DatabaseEvent::Opened(code, dbi)) => {
                match crate::error::result_of_code(code) {
                    Ok(()) => DatabaseStage::Commit { database: Database { dbi } },
                    Err(error) => DatabaseStage::Finished { result: Err(error) },
                }
            },
            (DatabaseStage::Commit { database }, DatabaseEvent::Committed(reply)) => match reply {
                Ok(()) => DatabaseStage::Finished { result: Ok(database) },
                Err(error) => DatabaseStage::Finished { result: Err(error) },
            },
            _ => self.stage,
        }
    }

    /// What is to be done next.
    pub fn action(&self) -> (action: DatabaseAction)
        ensures
            action == self.next_action(),
    {
        match self.stage {
            DatabaseStage::Begin => match self.creation {
                Some(_) => DatabaseAction::BeginRwTxn,
                None => DatabaseAction::BeginRoTxn,
            },
            DatabaseStage::Open => match self.creation {
                Some(flags) => DatabaseAction::Open(flags.bits() | MDB_CREATE),
                None => DatabaseAction::Open(0),
            },
            DatabaseStage::Commit { database } => DatabaseAction::Commit,
            DatabaseStage::Finished { result } => DatabaseAction::Done(result),
        }
    }

    /// Takes note of what was done.
    pub fn step(&mut self, event: DatabaseEvent)
        ensures
            *final(self) == (DatabaseOpening { stage: old(self).stage_after(event), ..*old(self) }),
    {
        self.stage = match (self.stage, event) {
            (DatabaseStage::Begin, DatabaseEvent::Begun(reply)) => match reply {
                Ok(()) => if self.name_is_usable {
                    DatabaseStage::Open
                } else {
                    DatabaseStage::Finished { result: Err(Error::Invalid) }
                },
                Err(error) => DatabaseStage::Finished { result: Err(error) },
            },
            (DatabaseStage::Open, DatabaseEvent::Opened(code, dbi)) => match Database::new(
                code,
                dbi,
            ) {
                Ok(database) => DatabaseStage::Commit { database },
                Err(error) => DatabaseStage::Finished { result: Err(error) },
            },
            (DatabaseStage::Commit { database }, DatabaseEvent::Committed(reply)) => match reply {
                Ok(()) => DatabaseStage::Finished { result: Ok(database) },
                Err(error) => DatabaseStage::Finished { result: Err(error) },
            },
            (stage, _) => stage,
        };
    }
}

/// A handle is given out only once the transaction that opened it is committed.
pub proof fn a_handle_is_given_out_after_the_commit(
    opening: DatabaseOpening,
    event: DatabaseEvent,
    database: Database,
)
    requires
        !(opening.stage is Finished),
        opening.stage_after(event) == (DatabaseStage::Finished { result: Ok(database) }),
    ensures
        opening.stage == (DatabaseStage::Commit { database }),
        event matches DatabaseEvent::Committed(Ok(_)),
{
}

impl DatabaseOpening {
    /// Opening after an event.
    pub open spec fn after(self, event: DatabaseEvent) -> DatabaseOpening {
        DatabaseOpening { stage: self.stage_after(event), ..self }
    }

    /// Opening as it begins, with a name that is usable or not.
    pub open spec fn start(name_is_usable: bool, creation: Option<DatabaseFlags>) -> DatabaseOpening {
        DatabaseOpening { name_is_usable, creation, stage: DatabaseStage::Begin }
    }
}

/// Opening a database takes a transaction, the call that opens it, and a commit, in this order: a
/// read-only transaction and no flags, or to create it a read-write transaction, the flags that were
/// given and the one to create. The handle that is given out is the one that LMDB reported for the
/// database in that transaction, whichever it is.
pub proof fn the_reported_handle_is_given_out(creation: Option<DatabaseFlags>, dbi: u32)
    ensures
        ({
            let begin = DatabaseOpening::start(true, creation);
            let open = begin.after(DatabaseEvent::Begun(Ok(())));
            let commit = open.after(DatabaseEvent::Opened(0, dbi));
            let end = commit.after(DatabaseEvent::Committed(Ok(())));
            &&& begin.next_action() == match creation {
                Some(flags) => DatabaseAction::BeginRwTxn,
                None => DatabaseAction::BeginRoTxn,
            }
            &&& open.next_action() matches DatabaseAction::Open(bits) && match creation {
                Some(flags) => bits == flags.bits | 0x40000,
                None => bits == 0,
            }
            &&& commit.next_action() == DatabaseAction::Commit
            &&& end.next_action() matches DatabaseAction::Done(Ok(database)) && database.dbi == dbi
        }),
{
}

/// Two databases that LMDB reports different handles for are given out under different handles.
pub proof fn different_databases_have_different_handles(
    creations: (Option<DatabaseFlags>, Option<DatabaseFlags>),
    dbis: (u32, u32),
    databases: (Database, Database),
)
    requires
        DatabaseOpening::start(true, creations.0).after(DatabaseEvent::Begun(Ok(()))).after(
            DatabaseEvent::Opened(0, dbis.0),
        ).after(DatabaseEvent::Committed(Ok(()))).next_action() == DatabaseAction::Done(
            Ok(databases.0),
        ),
        DatabaseOpening::start(true, creations.1).after(DatabaseEvent::Begun(Ok(()))).after(
            DatabaseEvent::Opened(0, dbis.1),
        ).after(DatabaseEvent::Committed(Ok(()))).next_action() == DatabaseAction::Done(
            Ok(databases.1),
        ),
    ensures
        databases.0 == databases.1 <==> dbis.0 == dbis.1,
{
}

/// Opening fails with the error of the first thing that failed, and nothing is done after that: the
/// transaction that did not begin, the name that is not usable, the call that opens the database, or
/// the commit.
pub proof fn opening_a_database_fails_with_the_first_error(
    creation: Option<DatabaseFlags>,
    name_is_usable: bool,
    error: Error,
    code: i32,
    dbi: u32,
)
    requires
        code != 0,
    ensures
        ({
            let begin = DatabaseOpening::start(name_is_usable, creation);
            let begun = begin.after(DatabaseEvent::Begun(Ok(())));
            &&& begin.after(DatabaseEvent::Begun(Err(error))).next_action()
                == DatabaseAction::Done(Err(error))
            &&& if name_is_usable {
                let opened = begun.after(DatabaseEvent::Opened(0, dbi));
                &&& begun.after(DatabaseEvent::Opened(code, dbi)).next_action()
                    matches DatabaseAction::Done(Err(refusal))
                &&& crate::error::stands_for(refusal, code)
                &&& opened.after(DatabaseEvent::Committed(Err(error))).next_action()
                    == DatabaseAction::Done(Err(error))
            } else {
                begun.next_action() == DatabaseAction::Done(Err(Error::Invalid))
            }
        }),
{
    crate::error::only_zero_is_success(code);
    crate::error::only_zero_is_success(0);
}

/// A name is usable just where none of its characters is the null character.
pub proof fn a_name_is_usable_without_null(name: Option<&str>)
    ensures
        is_name(name) <==> (name matches Some(name) ==> forall|i: int|
            0 <= i < name@.len() ==> #[trigger] name@[i] != '\0'),
{
}

} // verus!
