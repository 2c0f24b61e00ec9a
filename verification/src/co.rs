//! Compile-time station configuration.

use vstd::prelude::*;

verus! {

/// Source callsign and SSID of this station.
pub const MYCALL: &'static str = "KI7TUK-1";

/// Destination address; `APZ` marks an experimental APRS implementation.
pub const TOCALL: &'static str = "APZ   ";

/// Digipeater path callsign.
pub const DIGI_CALL: &'static str = "WIDE1";

/// Digipeater path SSID.
pub const DIGI_SSID: u8 = 1;

/// Capacity of the serial receive queue in bytes.
pub const UART_BUFFER_SIZE: usize = 4096;

/// Longest accepted NMEA sentence, in bytes, excluding the line terminator.
pub const GPS_MAX_SENTENCE_LEN: usize = 100;

/// How often the GPS task drains the receive queue.
pub const GPS_TASK_POLL_INTERVAL_MS: u64 = 1000;

/// Time between position beacons.
pub const BEACON_PERIOD_MS: u64 = 1_800_000;

/// Retry delay while no GPS fix is available.
pub const BEACON_NO_FIX_RETRY_MS: u64 = 5_000;

/// Retry delay on an incomplete fix or a full transmit queue.
pub const BEACON_RETRY_MS: u64 = 1_000;

} // verus!
