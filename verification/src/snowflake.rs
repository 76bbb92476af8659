//! Snowflake identifiers: 64-bit values packing a millisecond offset from a
//! fixed epoch (bits 22..63), an originating-partition id (bits 12..21) and a
//! per-millisecond sequence counter (bits 0..11).  Identifiers travel as
//! decimal strings and order consistently with creation time.

use vstd::prelude::*;
use crate::digits::{dec_str, dec_val, parse_u64, parses_as_u64, u64_to_string};
use crate::digits::{lemma_dec_str_all_digits, lemma_dec_str_round_trip};

verus! {

/// Milliseconds between the unix epoch and the epoch snowflakes count from.
pub const DISCORD_EPOCH_MS: u64 = 1420070400000;

/// Why a snowflake could not be read or built.
#[derive(Clone, Copy, Debug, PartialEq, Eq, Structural)]
pub enum SnowflakeError {
    /// The identifier string is not a decimal `u64`.
    InvalidNumber,
    /// The timestamp lies before the snowflake epoch.
    BeforeEpoch,
    /// The partition id does not fit in 10 bits.
    WorkerIdTooLarge,
    /// The sequence counter does not fit in 12 bits.
    SequenceTooLarge,
    /// The epoch offset does not fit in 42 bits.
    TimestampTooLarge,
}

/// The packed identifier for an epoch offset, partition id and sequence.
pub open spec fn spec_snowflake(offset_ms: u64, worker_id: u64, sequence: u64) -> u64 {
    (offset_ms << 22) | (worker_id << 12) | sequence
}

/// The unix millisecond timestamp encoded in an identifier.
pub open spec fn spec_snowflake_unix_ms(id: u64) -> int {
    (id >> 22) + DISCORD_EPOCH_MS
}

/// A triple that the encoder accepts.
pub open spec fn spec_encodable(timestamp_ms: i64, worker_id: u16, sequence: u16) -> bool {
    &&& timestamp_ms >= DISCORD_EPOCH_MS
    &&& worker_id <= 1023
    &&& sequence <= 4095
    &&& timestamp_ms - DISCORD_EPOCH_MS < 0x400_0000_0000
}

/// Extract the unix timestamp in milliseconds from a snowflake string.
pub fn snowflake_to_unix_ms(s: &str) -> (r: Result<i64, SnowflakeError>)
    ensures
        r is Ok <==> parses_as_u64(s@),
        r matches Ok(ms) ==> ms == spec_snowflake_unix_ms(dec_val(s@) as u64),
        r is Err ==> r == Err::<i64, SnowflakeError>(SnowflakeError::InvalidNumber),
{
    match parse_u64(s) {
        None => Err(SnowflakeError::InvalidNumber),
        Some(id) => {
            let off = id >> 22;
            assert(off < 0x400_0000_0000) by (bit_vector)
                requires
                    off == id >> 22,
            ;
            Ok(off as i64 + 1420070400000i64)
        },
    }
}

/// Extract the unix timestamp in whole seconds from a snowflake string.
pub fn snowflake_to_unix_secs(s: &str) -> (r: Result<i64, SnowflakeError>)
    ensures
        r is Ok <==> parses_as_u64(s@),
        r matches Ok(t) ==> t == spec_snowflake_unix_ms(dec_val(s@) as u64) / 1000,
        r is Err ==> r == Err::<i64, SnowflakeError>(SnowflakeError::InvalidNumber),
{
    match snowflake_to_unix_ms(s) {
        Err(e) => Err(e),
        Ok(ms) => Ok(ms / 1000),
    }
}

/// Build a snowflake string from a unix millisecond timestamp, a partition id
/// and a sequence counter.  Each malformed input is reported in the order the
/// checks run: epoch first, then partition, sequence, and the 42-bit range.
pub fn unix_ms_to_snowflake(timestamp_ms: i64, worker_id: u16, sequence: u16) -> (r: Result<
    String,
    SnowflakeError,
>)
    ensures
        r is Ok <==> spec_encodable(timestamp_ms, worker_id, sequence),
        r matches Ok(s) ==> s@ == dec_str(
            spec_snowflake(
                (timestamp_ms - DISCORD_EPOCH_MS) as u64,
                worker_id as u64,
                sequence as u64,
            ) as nat,
        ),
        timestamp_ms < DISCORD_EPOCH_MS ==> r == Err::<String, SnowflakeError>(
            SnowflakeError::BeforeEpoch,
        ),
        timestamp_ms >= DISCORD_EPOCH_MS && worker_id > 1023 ==> r == Err::<
            String,
            SnowflakeError,
        >(SnowflakeError::WorkerIdTooLarge),
        timestamp_ms >= DISCORD_EPOCH_MS && worker_id <= 1023 && sequence > 4095 ==> r == Err::<
            String,
            SnowflakeError,
        >(SnowflakeError::SequenceTooLarge),
        timestamp_ms >= DISCORD_EPOCH_MS && worker_id <= 1023 && sequence <= 4095 && timestamp_ms
            - DISCORD_EPOCH_MS >= 0x400_0000_0000 ==> r == Err::<String, SnowflakeError>(
            SnowflakeError::TimestampTooLarge,
        ),
{
    if timestamp_ms < 1420070400000i64 {
        return Err(SnowflakeError::BeforeEpoch);
    }
    if worker_id > 0x3FF {
        return Err(SnowflakeError::WorkerIdTooLarge);
    }
    if sequence > 0xFFF {
        return Err(SnowflakeError::SequenceTooLarge);
    }
    let offset = (timestamp_ms - 1420070400000i64) as u64;
    if offset >> 42 != 0 {
        proof {
            let off = offset;
            assert(off >> 42 != 0 ==> off >= 0x400_0000_0000) by (bit_vector);
        }
        return Err(SnowflakeError::TimestampTooLarge);
    }
    proof {
        let off = offset;
        assert(off >> 42 == 0 ==> off < 0x400_0000_0000) by (bit_vector);
    }
    let id = (offset << 22) | ((worker_id as u64) << 12) | (sequence as u64);
    Ok(u64_to_string(id))
}

/// Split an identifier into its epoch offset, partition id and sequence.
pub fn snowflake_parts(id: u64) -> (r: (u64, u16, u16))
    ensures
        r.0 == id >> 22,
        r.1 == (id >> 12) & 0x3ff,
        r.2 == id & 0xfff,
{
    let off = id >> 22;
    let wid = (id >> 12) & 0x3ff;
    let sq = id & 0xfff;
    assert(wid < 1024 && sq < 4096) by (bit_vector)
        requires
            wid == (id >> 12) & 0x3ff,
            sq == id & 0xfff,
    ;
    (off, wid as u16, sq as u16)
}

proof fn lemma_snowflake_bits(offset_ms: u64, worker_id: u64, sequence: u64)
    by (bit_vector)
    requires
        offset_ms < 0x400_0000_0000,
        worker_id < 1024,
        sequence < 4096,
    ensures
        spec_snowflake(offset_ms, worker_id, sequence) >> 22 == offset_ms,
        (spec_snowflake(offset_ms, worker_id, sequence) >> 12) & 0x3ff == worker_id,
        spec_snowflake(offset_ms, worker_id, sequence) & 0xfff == sequence,
{
}

/// Law: for every admissible triple, decoding the decimal identifier produced
/// by encoding yields back exactly the same timestamp, partition id and
/// sequence.
pub proof fn lemma_snowflake_round_trip(timestamp_ms: i64, worker_id: u16, sequence: u16)
    requires
        spec_encodable(timestamp_ms, worker_id, sequence),
    ensures
        ({
            let id = spec_snowflake(
                (timestamp_ms - DISCORD_EPOCH_MS) as u64,
                worker_id as u64,
                sequence as u64,
            );
            &&& parses_as_u64(dec_str(id as nat))
            &&& dec_val(dec_str(id as nat)) == id
            &&& spec_snowflake_unix_ms(id) == timestamp_ms
            &&& (id >> 12) & 0x3ff == worker_id
            &&& id & 0xfff == sequence
        }),
{
    let off = (timestamp_ms - DISCORD_EPOCH_MS) as u64;
    let id = spec_snowflake(off, worker_id as u64, sequence as u64);
    lemma_snowflake_bits(off, worker_id as u64, sequence as u64);
    lemma_dec_str_all_digits(id as nat);
    lemma_dec_str_round_trip(id as nat);
}

} // verus!
