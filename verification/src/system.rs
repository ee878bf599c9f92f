//! What is taken from the machine: error numbers of the operating system, and integers in the
//! byte order of the processor.

use vstd::prelude::*;

use byteorder::{ByteOrder, NativeEndian};

verus! {

/// The values that systems give to `ENOSPC`, "no space left on device".
pub open spec fn is_enospc(code: i32) -> bool {
    code == 28 || code == 22 || code == 51 || code == 1073741852 || code == -2147459065
}

/// The values that systems give to `EIO`, "input/output error".
pub open spec fn is_eio(code: i32) -> bool {
    code == 5 || code == 28 || code == 29 || code == 1073741829 || code == -2147483647
}

/// The values that systems give to `EINVAL`, "invalid argument".
pub open spec fn is_einval(code: i32) -> bool {
    code == 22 || code == 14 || code == 28 || code == 1073741846 || code == -2147483643
}

/// `libc::ENOSPC`. The value depends on the target; it is one of those that the crate lists for
/// its targets. Which one is left open.
#[verifier::external_body]
pub(crate) fn enospc() -> (code: i32)
    ensures
        is_enospc(code),
{
    libc::ENOSPC
}

/// `libc::EIO`. The value depends on the target; it is one of those that the crate lists for its
/// targets. Which one is left open.
#[verifier::external_body]
pub(crate) fn eio() -> (code: i32)
    ensures
        is_eio(code),
{
    libc::EIO
}

/// `libc::EINVAL`. The value depends on the target; it is one of those that the crate lists for
/// its targets. Which one is left open.
#[verifier::external_body]
pub(crate) fn einval() -> (code: i32)
    ensures
        is_einval(code),
{
    libc::EINVAL
}

/// The number that bytes stand for, the least significant byte first.
pub open spec fn little_endian(bytes: Seq<u8>) -> nat
    decreases bytes.len(),
{
    if bytes.len() == 0 {
        0
    } else {
        bytes[0] as nat + 256 * little_endian(bytes.drop_first())
    }
}

/// The number that bytes stand for in the byte order of the processor.
pub open spec fn native_endian(bytes: Seq<u8>) -> nat {
    match vstd::endian::endianness() {
        vstd::endian::Endian::Little => little_endian(bytes),
        vstd::endian::Endian::Big => little_endian(bytes.reverse()),
    }
}

/// `byteorder::NativeEndian::read_u64`. It reads the first eight bytes as an integer in the byte
/// order of the processor, and panics where there are fewer.
#[verifier::external_body]
pub(crate) fn read_u64(bytes: &[u8]) -> (number: u64)
    requires
        bytes@.len() >= 8,
    ensures
        number == native_endian(bytes@.take(8)),
{
    NativeEndian::read_u64(bytes)
}

/// `byteorder::NativeEndian::read_u32`. It reads the first four bytes as an integer in the byte
/// order of the processor, and panics where there are fewer.
#[verifier::external_body]
pub(crate) fn read_u32(bytes: &[u8]) -> (number: u32)
    requires
        bytes@.len() >= 4,
    ensures
        number == native_endian(bytes@.take(4)),
{
    NativeEndian::read_u32(bytes)
}

} // verus!
