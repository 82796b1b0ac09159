//! The `meta` table: the format version, when the transceiver started and
//! ended, and the servers in their declared order.

use vstd::prelude::*;
use vstd::string::*;
use crate::error::{DbFormatError, Error};
use crate::wire::{le_bytes, le_value, read_u32_le, text_from_utf8, write_u32_le};

verus! {

/// Name of the table.
pub const NAME: &'static str = "meta";

/// The decimal digits of a number, as ASCII.
pub open spec fn decimal(n: nat) -> Seq<u8>
    decreases n,
{
    if n < 10 {
        seq![(48 + n) as u8]
    } else {
        decimal(n / 10).push((48 + n % 10) as u8)
    }
}

/// The value under `version` that a database must hold to be read: the
/// octets of the version tag.
pub fn version_value() -> (r: Vec<u8>)
    ensures
        r@ == super::BIN_FORMAT_VERSION@.map_values(|c: char| c as u8),
        super::BIN_FORMAT_VERSION.is_ascii(),
{
    proof {
        reveal_strlit("2018-05-21");
    }
    let tag = super::BIN_FORMAT_VERSION;
    let mut out: Vec<u8> = Vec::new();
    let mut i: usize = 0;
    while i < 10
        invariant
            i <= 10,
            tag@.len() == 10,
            tag.is_ascii(),
            out@ == tag@.take(i as int).map_values(|c: char| c as u8),
        decreases 10 - i,
    {
        out.push(tag.get_ascii(i));
        i += 1;
    }
    out
}

/// Checks the value stored under `version`: gives the version back if it
/// is the supported one.
pub fn check_version(value: &[u8]) -> (r: Result<String, Error>)
    ensures
        !vstd::utf8::valid_utf8(value@) ==> (r matches Err(Error::NonAscii)),
        vstd::utf8::valid_utf8(value@) ==> (if vstd::utf8::decode_utf8(value@)
            == super::BIN_FORMAT_VERSION@ {
            r matches Ok(version) && version@ == super::BIN_FORMAT_VERSION@
        } else {
            r matches Err(Error::DbFormatError(DbFormatError::Unsupported))
        }),
{
    let version = match text_from_utf8(value) {
        Some(text) => text,
        None => {
            return Err(Error::NonAscii);
        },
    };
    if version == String::from_str(super::BIN_FORMAT_VERSION) {
        Ok(version)
    } else {
        Err(Error::from(DbFormatError::Unsupported))
    }
}

/// The value that stores a time given in seconds since the epoch: four
/// octets, little-endian. Fails if the seconds do not fit.
pub fn time_value(seconds: u64) -> (r: Result<Vec<u8>, Error>)
    ensures
        seconds <= u32::MAX ==> (r matches Ok(value) && value@ == le_bytes(seconds as nat, 4)),
        seconds > u32::MAX ==> (r matches Err(Error::Time)),
{
    if seconds > u32::MAX as u64 {
        return Err(Error::Time);
    }
    Ok(write_u32_le(seconds as u32))
}

/// The time, in seconds since the epoch, that a stored value begins with.
pub fn read_time(value: &[u8]) -> (r: u32)
    requires
        value@.len() >= 4,
    ensures
        r == le_value(value@.subrange(0, 4)),
{
    read_u32_le(&value[0..4])
}

/// The value under `servers`: the number of servers as four octets,
/// little-endian.
pub fn servers_value(count: usize) -> (r: Vec<u8>)
    requires
        count <= u32::MAX,
    ensures
        r@ == le_bytes(count as nat, 4),
{
    write_u32_le(count as u32)
}

/// Appends the decimal digits of `n`.
fn push_decimal(out: &mut Vec<u8>, n: usize)
    ensures
        final(out)@ == old(out)@ + decimal(n as nat),
    decreases n,
{
    if n >= 10 {
        push_decimal(out, n / 10);
    }
    let digit: u8 = (n % 10) as u8;
    out.push(48 + digit);
}

/// The key under which the name of the server at `position` is stored:
/// `name` and the position in decimal.
pub fn server_name_key(position: usize) -> (r: Vec<u8>)
    ensures
        r@ == seq![110u8, 97u8, 109u8, 101u8] + decimal(position as nat),
{
    let mut key: Vec<u8> = Vec::new();
    key.push(110);
    key.push(97);
    key.push(109);
    key.push(101);
    push_decimal(&mut key, position);
    key
}

} // verus!
