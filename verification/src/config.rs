//! Configuration records: one per highlighter, each enumerating the styles
//! for its token roles and, where a highlighter is configurable, the literal
//! token bytes it works with.

use vstd::prelude::*;
use crate::style::Style;

verus! {

pub struct IpV6Config {
    pub number: Style,
    pub letter: Style,
    pub separator: Style,
}

pub struct KeyValueConfig {
    pub key: Style,
    pub separator: Style,
}

pub struct PointerConfig {
    pub number: Style,
    pub letter: Style,
    pub separator: Style,
    /// The bytes printed between the low and high halves of a 64-bit pointer.
    pub separator_token: Vec<u8>,
    pub x: Style,
}

pub struct QuotesConfig {
    /// The quote byte the state machine pairs up (for example `"`).
    pub quotes_token: u8,
    pub style: Style,
}

pub struct UnixProcessConfig {
    pub name: Style,
    pub id: Style,
    pub bracket: Style,
}

pub struct UrlConfig {
    pub http: Style,
    pub https: Style,
    pub host: Style,
    pub path: Style,
    pub query_params_key: Style,
    pub query_params_value: Style,
    pub symbols: Style,
}

pub struct UuidConfig {
    pub number: Style,
    pub letter: Style,
    pub dash: Style,
}

pub struct NumberConfig {
    pub style: Style,
}

} // verus!
