//! Auto-connect status codes.

use vstd::prelude::*;

verus! {

/// Auto-connect is switched off.
pub const DISABLED: u8 = 0;

/// A connection is being made.
pub const CONNECTING: u8 = 1;

/// The connection is up, or was when the last one ended.
pub const CONNECTED: u8 = 2;

/// The host name has no IPv4 address.
pub const DNS_FAIL: u8 = 3;

/// The server cannot be reached.
pub const TCP_FAIL: u8 = 4;

/// The TLS handshake failed.
pub const TLS_FAIL: u8 = 5;

/// The URL or the public key in it is not valid.
pub const BAD_CONFIG: u8 = 6;

/// The server presented another key than the pinned one.
pub const PIN_MISMATCH: u8 = 7;

} // verus!
