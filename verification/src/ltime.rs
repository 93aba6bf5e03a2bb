//! Seconds-since-epoch time carried in updates, and the staleness test
//! that guards replay.

use vstd::prelude::*;
use crate::codec::{Codec, dec_u32_at, enc_u32, lemma_u32_round_trip, read_u32, write_u32};

verus! {

#[verifier::external_type_specification]
#[verifier::external_body]
pub struct ExSystemTime(std::time::SystemTime);

/// Relies on `std::time::SystemTime::now`: the current wall-clock time;
/// nothing is promised of its value.
#[verifier::external_body]
fn system_now() -> std::time::SystemTime {
    std::time::SystemTime::now()
}

/// Relies on `SystemTime::duration_since` against `UNIX_EPOCH`: whole
/// seconds since the epoch, or nothing for a time before the epoch.
#[verifier::external_body]
fn system_secs_since_epoch(t: &std::time::SystemTime) -> Option<u64> {
    t.duration_since(std::time::UNIX_EPOCH).ok().map(|d| d.as_secs())
}

/// Relies on `UNIX_EPOCH + Duration::from_secs`: the time that lies the
/// given number of seconds after the epoch. The addition panics when the
/// result is unrepresentable, so only the 32-bit range our timestamps
/// span is admitted.
#[verifier::external_body]
fn system_from_epoch_secs(secs: u64) -> std::time::SystemTime
    requires
        secs <= u32::MAX as u64,
{
    std::time::UNIX_EPOCH + std::time::Duration::from_secs(secs)
}

#[derive(Debug, Clone, Copy, PartialEq, Eq, Structural)]
pub enum TimeError {
    BeforeEpoch,
}

/// A timestamp as whole seconds since the Unix epoch, stored in 32 bits
/// so it serializes to a fixed width.
#[derive(Debug, Clone, Copy, PartialEq, Eq, Structural)]
pub struct SerializableTime(u32);

impl View for SerializableTime {
    type V = u32;

    closed spec fn view(&self) -> u32 {
        self.0
    }
}

impl DeepView for SerializableTime {
    type V = u32;

    open spec fn deep_view(&self) -> u32 {
        self.view()
    }
}

impl SerializableTime {
    /// Wrap a seconds count directly.
    pub fn from_secs(secs: u32) -> (r: SerializableTime)
        ensures
            r@ == secs,
    {
        SerializableTime(secs)
    }

    /// The seconds of the given system time; times before the epoch are
    /// an error, and seconds beyond 32 bits are truncated.
    pub fn from_system(sys: std::time::SystemTime) -> (r: Result<SerializableTime, TimeError>) {
        match system_secs_since_epoch(&sys) {
            Some(secs) => Ok(SerializableTime(#[verifier::truncate] (secs as u32))),
            None => Err(TimeError::BeforeEpoch),
        }
    }

    /// The current time, read from the system clock.
    pub fn from_system_now() -> (r: Result<SerializableTime, TimeError>) {
        Self::from_system(system_now())
    }

    /// Back to a system time.
    pub fn to_system(&self) -> std::time::SystemTime {
        system_from_epoch_secs(self.0 as u64)
    }

    pub fn to_u64(&self) -> (r: u64)
        ensures
            r == self@ as u64,
    {
        self.0 as u64
    }
}

impl Codec for SerializableTime {
    open spec fn encv(v: u32) -> Seq<u8> {
        enc_u32(v)
    }

    open spec fn encv_wf(v: u32) -> bool {
        true
    }

    open spec fn decv_at(b: Seq<u8>, i: int) -> Option<(u32, int)> {
        dec_u32_at(b, i)
    }

    proof fn lemma_round_trip(v: u32, b: Seq<u8>, i: int) {
        lemma_u32_round_trip(v, b, i);
    }

    fn encode_to(&self, out: &mut Vec<u8>) {
        write_u32(out, self.0);
    }

    fn decode_at(b: &[u8], i: usize) -> (r: Option<(SerializableTime, usize)>) {
        match read_u32(b, i) {
            Some((x, j)) => Some((SerializableTime(x), j)),
            None => None,
        }
    }
}

/// A timestamp is stale unless it lies in the half-open window of
/// `stale_seconds` ending at `virtual_now`: timestamps in the future, and
/// timestamps `stale_seconds` or more old, are stale.
pub open spec fn is_stale(virtual_now: u64, timestamp: u64, stale_seconds: u64) -> bool {
    timestamp > virtual_now || virtual_now - timestamp >= stale_seconds
}

pub fn check_stale(virtual_now: u64, timestamp: u64, stale_seconds: u64) -> (r: bool)
    ensures
        r == is_stale(virtual_now, timestamp, stale_seconds),
{
    if virtual_now >= timestamp {
        let diff = virtual_now - timestamp;
        diff >= stale_seconds
    } else {
        true
    }
}

/// Whole seconds since the epoch right now, if the clock can say.
pub fn now_secs() -> Option<u64> {
    let now = system_now();
    system_secs_since_epoch(&now)
}

/// `check_stale` against the system clock; an unreadable clock counts as
/// stale.
pub fn now_check_stale(timestamp: u64, stale_seconds: u64) -> bool {
    match now_secs() {
        Some(now) => check_stale(now, timestamp, stale_seconds),
        None => true,
    }
}

} // verus!
