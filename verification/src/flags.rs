//! The option flags of environments, databases and writes.

use vstd::prelude::*;

verus! {

/// System buffers are not flushed on commit.
pub const MDB_NOSYNC: u32 = 0x10000;

/// The environment is opened read-only.
pub const MDB_RDONLY: u32 = 0x20000;

/// The meta page is not flushed on commit.
pub const MDB_NOMETASYNC: u32 = 0x40000;

/// Keys are compared from their last byte to their first.
pub const MDB_REVERSEKEY: u32 = 0x02;

/// A key may have several data items, which are sorted.
pub const MDB_DUPSORT: u32 = 0x04;

/// Keys are integers in native byte order.
pub const MDB_INTEGERKEY: u32 = 0x08;

/// The data items of a key all have the same size.
pub const MDB_DUPFIXED: u32 = 0x10;

/// The data items of a key are integers in native byte order.
pub const MDB_INTEGERDUP: u32 = 0x20;

/// The data items of a key are compared from their last byte to their first.
pub const MDB_REVERSEDUP: u32 = 0x40;

/// The database is created where it does not exist.
pub const MDB_CREATE: u32 = 0x40000;

/// A key/data pair that exists already is not written; on a delete, all data items of the key go.
pub const MDB_NODUPDATA: u32 = 0x20;

/// The item at the position of the cursor is overwritten.
pub const MDB_CURRENT: u32 = 0x40;

/// All the flags that a database can have.
pub const DATABASE_FLAGS: u32 = MDB_REVERSEKEY | MDB_DUPSORT | MDB_INTEGERKEY | MDB_DUPFIXED
    | MDB_INTEGERDUP | MDB_REVERSEDUP;

/// Option flags of an environment.
#[derive(Clone, Copy, Debug, PartialEq, Eq, Structural)]
pub struct EnvironmentFlags {
    pub bits: u32,
}

/// Option flags of a database.
#[derive(Clone, Copy, Debug, PartialEq, Eq, Structural)]
pub struct DatabaseFlags {
    pub bits: u32,
}

/// Option flags of a write.
#[derive(Clone, Copy, Debug, PartialEq, Eq, Structural)]
pub struct WriteFlags {
    pub bits: u32,
}

impl EnvironmentFlags {
    /// No flags.
    pub fn empty() -> (flags: EnvironmentFlags)
        ensures
            flags.bits == 0,
    {
        EnvironmentFlags { bits: 0 }
    }

    /// The flags as LMDB takes them.
    pub fn bits(&self) -> (bits: u32)
        ensures
            bits == self.bits,
    {
        self.bits
    }
}

impl DatabaseFlags {
    /// No flags.
    pub fn empty() -> (flags: DatabaseFlags)
        ensures
            flags.bits == 0,
    {
        DatabaseFlags { bits: 0 }
    }

    /// The flags as LMDB takes them.
    pub fn bits(&self) -> (bits: u32)
        ensures
            bits == self.bits,
    {
        self.bits
    }

    /// The flags that LMDB reports, or nothing where there is one among them that no database can
    /// have.
    pub fn from_bits(bits: u32) -> (flags: Option<DatabaseFlags>)
        ensures
            flags == if bits & !DATABASE_FLAGS == 0 {
                Some(DatabaseFlags { bits })
            } else {
                None
            },
    {
        if bits & !DATABASE_FLAGS == 0 {
            Some(DatabaseFlags { bits })
        } else {
            None
        }
    }
}

impl WriteFlags {
    /// No flags.
    pub fn empty() -> (flags: WriteFlags)
        ensures
            flags.bits == 0,
    {
        WriteFlags { bits: 0 }
    }

    /// The flags as LMDB takes them.
    pub fn bits(&self) -> (bits: u32)
        ensures
            bits == self.bits,
    {
        self.bits
    }
}

/// The flags that a write transaction begins with.
pub open spec fn txn_flags(no_sync: bool, no_meta_sync: bool) -> u32 {
    match (no_sync, no_meta_sync) {
        (true, true) => MDB_NOSYNC | MDB_NOMETASYNC,
        (true, false) => MDB_NOSYNC,
        (false, true) => MDB_NOMETASYNC,
        (false, false) => 0,
    }
}

/// The flags that a write transaction begins with. They are added to those of the environment, so
/// leaving one out does not take it away.
pub fn rw_txn_flags(no_sync: bool, no_meta_sync: bool) -> (flags: u32)
    ensures
        flags == txn_flags(no_sync, no_meta_sync),
{
    match (no_sync, no_meta_sync) {
        (true, true) => MDB_NOSYNC | MDB_NOMETASYNC,
        (true, false) => MDB_NOSYNC,
        (false, true) => MDB_NOMETASYNC,
        (false, false) => 0,
    }
}

/// A write transaction has the flag not to flush just where that was asked for, likewise the flag
/// not to flush the meta page, and no other flag.
pub proof fn write_transactions_have_what_was_asked_for(
    no_sync: bool,
    no_meta_sync: bool,
    other: u32,
)
    ensures
        txn_flags(no_sync, no_meta_sync) & 0x10000 != 0 <==> no_sync,
        txn_flags(no_sync, no_meta_sync) & 0x40000 != 0 <==> no_meta_sync,
        other & 0x50000 == 0 ==> txn_flags(no_sync, no_meta_sync) & other == 0,
{
    assert(0x10000u32 & 0x10000 != 0 && 0x40000u32 & 0x10000 == 0 && 0u32 & 0x10000 == 0 && (
    0x10000u32 | 0x40000) & 0x10000 != 0) by (bit_vector);
    assert(0x10000u32 & 0x40000 == 0 && 0x40000u32 & 0x40000 != 0 && 0u32 & 0x40000 == 0 && (
    0x10000u32 | 0x40000) & 0x40000 != 0) by (bit_vector);
    assert(other & 0x50000 == 0 ==> 0x10000u32 & other == 0 && 0x40000u32 & other == 0 && 0u32
        & other == 0 && (0x10000u32 | 0x40000) & other == 0) by (bit_vector);
}

/// The flags that a database can have are the bits from the second to the seventh, and no others.
pub proof fn database_flags_are_six_bits(bits: u32)
    ensures
        bits & !DATABASE_FLAGS == 0 <==> bits % 2 == 0 && bits < 0x80,
{
    assert(bits & !(0x02u32 | 0x04 | 0x08 | 0x10 | 0x20 | 0x40) == 0 <==> bits % 2 == 0 && bits
        < 0x80) by (bit_vector);
}

} // verus!
