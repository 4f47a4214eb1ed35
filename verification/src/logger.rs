//! Log levels forwarded from the presentation layer, as plain numeric codes.

use vstd::prelude::*;

verus! {

/// The severity of a forwarded log line.
#[derive(Debug, Clone, Copy, PartialEq, Eq, Structural)]
pub enum LogLevel {
    Trace,
    Debug,
    Info,
    Warn,
    Error,
}

/// The numeric level codes the presentation layer sends, from 1 (trace) to
/// 5 (error). Codes outside that range are not accepted.
pub fn parse_level(level: u8) -> (r: LogLevel)
    requires
        1 <= level <= 5,
    ensures
        r == (match level {
            1u8 => LogLevel::Trace,
            2u8 => LogLevel::Debug,
            3u8 => LogLevel::Info,
            4u8 => LogLevel::Warn,
            _ => LogLevel::Error,
        }),
{
    match level {
        1 => LogLevel::Trace,
        2 => LogLevel::Debug,
        3 => LogLevel::Info,
        4 => LogLevel::Warn,
        _ => LogLevel::Error,
    }
}

} // verus!
