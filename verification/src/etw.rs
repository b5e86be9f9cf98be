//! The values of `win_etw_metadata` that events are built from, as plain
//! integers.

use vstd::prelude::*;
use win_etw_metadata::{InFlag, OutFlag};

verus! {

/// `win_etw_metadata::InFlag::ANSI_STRING`: a NUL-terminated string. Its bits
/// are 2.
#[verifier::external_body]
pub(crate) fn in_ansi_string() -> (bits: u8)
    ensures
        bits == 2,
{
    InFlag::ANSI_STRING.bits()
}

/// `win_etw_metadata::InFlag::UINT8`: one byte. Its bits are 4.
#[verifier::external_body]
pub(crate) fn in_uint8() -> (bits: u8)
    ensures
        bits == 4,
{
    InFlag::UINT8.bits()
}

/// `win_etw_metadata::InFlag::INT64`: a little-endian `i64`. Its bits are 9.
#[verifier::external_body]
pub(crate) fn in_int64() -> (bits: u8)
    ensures
        bits == 9,
{
    InFlag::INT64.bits()
}

/// `win_etw_metadata::InFlag::UINT64`: a little-endian `u64`. Its bits are 10.
#[verifier::external_body]
pub(crate) fn in_uint64() -> (bits: u8)
    ensures
        bits == 10,
{
    InFlag::UINT64.bits()
}

/// `win_etw_metadata::InFlag::COUNTED_ANSI_STRING`: a string whose length
/// stands before it. Its bits are 23.
#[verifier::external_body]
pub(crate) fn in_counted_ansi_string() -> (bits: u8)
    ensures
        bits == 23,
{
    InFlag::COUNTED_ANSI_STRING.bits()
}

/// `win_etw_metadata::InFlag::CHAIN_FLAG`: an out flag follows. Its bits are
/// 0x80.
#[verifier::external_body]
pub(crate) fn in_chain_flag() -> (bits: u8)
    ensures
        bits == 0x80,
{
    InFlag::CHAIN_FLAG.bits()
}

/// `win_etw_metadata::OutFlag::BOOLEAN`: shown as a truth value. Its bits are
/// 3.
#[verifier::external_body]
pub(crate) fn out_boolean() -> (bits: u8)
    ensures
        bits == 3,
{
    OutFlag::BOOLEAN.bits()
}

/// `win_etw_metadata::OutFlag::HEX`: shown in hexadecimal. Its bits are 4.
#[verifier::external_body]
pub(crate) fn out_hex() -> (bits: u8)
    ensures
        bits == 4,
{
    OutFlag::HEX.bits()
}

/// `win_etw_metadata::OutFlag::UTF8`: text in UTF-8. Its bits are 35.
#[verifier::external_body]
pub(crate) fn out_utf8() -> (bits: u8)
    ensures
        bits == 35,
{
    OutFlag::UTF8.bits()
}

/// `win_etw_metadata::Level::ERROR`, which is 2.
#[verifier::external_body]
pub(crate) fn level_error() -> (level: u8)
    ensures
        level == 2,
{
    win_etw_metadata::Level::ERROR.0
}

/// `win_etw_metadata::Level::WARN`, which is 3.
#[verifier::external_body]
pub(crate) fn level_warn() -> (level: u8)
    ensures
        level == 3,
{
    win_etw_metadata::Level::WARN.0
}

/// `win_etw_metadata::Level::INFO`, which is 4.
#[verifier::external_body]
pub(crate) fn level_info() -> (level: u8)
    ensures
        level == 4,
{
    win_etw_metadata::Level::INFO.0
}

/// `win_etw_metadata::Level::VERBOSE`, which is 5.
#[verifier::external_body]
pub(crate) fn level_verbose() -> (level: u8)
    ensures
        level == 5,
{
    win_etw_metadata::Level::VERBOSE.0
}

/// `win_etw_metadata::MICROSOFT_KEYWORD_CRITICAL_DATA`, which is bit 47.
#[verifier::external_body]
pub(crate) fn keyword_critical_data() -> (keyword: u64)
    ensures
        keyword == 0x0000_8000_0000_0000,
{
    win_etw_metadata::MICROSOFT_KEYWORD_CRITICAL_DATA
}

/// `win_etw_metadata::MICROSOFT_KEYWORD_MEASURES`, which is bit 46.
#[verifier::external_body]
pub(crate) fn keyword_measures() -> (keyword: u64)
    ensures
        keyword == 0x0000_4000_0000_0000,
{
    win_etw_metadata::MICROSOFT_KEYWORD_MEASURES
}

/// `win_etw_metadata::MICROSOFT_KEYWORD_TELEMETRY`, which is bit 45.
#[verifier::external_body]
pub(crate) fn keyword_telemetry() -> (keyword: u64)
    ensures
        keyword == 0x0000_2000_0000_0000,
{
    win_etw_metadata::MICROSOFT_KEYWORD_TELEMETRY
}

} // verus!
