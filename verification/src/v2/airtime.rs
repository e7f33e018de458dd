//! `LoRa` time on air.

use vstd::arithmetic::power2;
use vstd::bits;
use vstd::prelude::*;

use crate::v2::types::{Error, MAX_PHY_FRAME_LEN};

verus! {

/// The quotient rounded up.
pub open spec fn ceiling(dividend: int, divisor: int) -> int {
    (dividend + divisor - 1) / divisor
}

/// One million times the number of chips in a symbol.
pub open spec fn symbol_numerator(spreading_factor: u8) -> int {
    (power2::pow2(spreading_factor as nat) * 1_000_000) as int
}

/// Whether a symbol lasts at least 16 ms, so that low-data-rate optimisation is on.
pub open spec fn low_data_rate(spreading_factor: u8, bandwidth_hz: u32) -> bool {
    symbol_numerator(spreading_factor) >= 16_000 * bandwidth_hz
}

/// The number of coded blocks in a packet's payload.
pub open spec fn coded_blocks(
    payload_len: usize,
    spreading_factor: u8,
    bandwidth_hz: u32,
    explicit_header: bool,
    crc_enabled: bool,
) -> int {
    let bits = 8 * payload_len - 4 * spreading_factor + 28 + (if crc_enabled {
        16int
    } else {
        0int
    }) - (if explicit_header {
        0int
    } else {
        20int
    });
    let bits_per_block = 4 * (spreading_factor - (if low_data_rate(spreading_factor, bandwidth_hz) {
        2int
    } else {
        0int
    }));
    if bits <= 0 {
        0
    } else {
        ceiling(bits, bits_per_block)
    }
}

/// A packet's duration in quarter symbols: the preamble and 4.25 symbols, eight
/// symbols, and the symbols of every coded block.
pub open spec fn quarter_symbols(
    blocks: int,
    coding_rate_denominator: u8,
    preamble_symbols: u16,
) -> int {
    4 * (preamble_symbols + (8 + blocks * coding_rate_denominator)) + 17
}

/// A packet's duration in microseconds, rounded up.
pub open spec fn time_on_air(
    payload_len: usize,
    spreading_factor: u8,
    bandwidth_hz: u32,
    coding_rate_denominator: u8,
    preamble_symbols: u16,
    explicit_header: bool,
    crc_enabled: bool,
) -> int {
    let blocks = coded_blocks(
        payload_len,
        spreading_factor,
        bandwidth_hz,
        explicit_header,
        crc_enabled,
    );
    ceiling(
        quarter_symbols(blocks, coding_rate_denominator, preamble_symbols) * symbol_numerator(
            spreading_factor,
        ),
        4 * bandwidth_hz,
    )
}

/// The fault of radio parameters for which there is no time on air.
pub open spec fn airtime_fault(
    payload_len: usize,
    spreading_factor: u8,
    bandwidth_hz: u32,
    coding_rate_denominator: u8,
) -> Option<Error> {
    if payload_len > MAX_PHY_FRAME_LEN {
        Some(Error::FrameTooLong(payload_len))
    } else if !(5 <= spreading_factor <= 12) {
        Some(Error::InvalidField("spreading_factor"))
    } else if bandwidth_hz == 0 {
        Some(Error::InvalidField("bandwidth_hz"))
    } else if !(5 <= coding_rate_denominator <= 8) {
        Some(Error::InvalidField("coding_rate_denominator"))
    } else {
        None
    }
}

/// Exact `LoRa` packet duration rounded up to the next microsecond.
///
/// `coding_rate_denominator` is 5..8 for 4/5..4/8. The calculation follows
/// Semtech's explicit-header payload-symbol equation.
///
/// # Errors
///
/// Returns an [`Error`] for an oversized payload or unsupported radio
/// parameters.
pub fn lora_time_on_air_us(
    payload_len: usize,
    spreading_factor: u8,
    bandwidth_hz: u32,
    coding_rate_denominator: u8,
    preamble_symbols: u16,
    explicit_header: bool,
    crc_enabled: bool,
) -> (result: Result<u64, Error>)
    ensures
        match airtime_fault(payload_len, spreading_factor, bandwidth_hz, coding_rate_denominator) {
            Some(error) => result == Err::<u64, Error>(error),
            None => result is Ok && result->Ok_0 == time_on_air(
                payload_len,
                spreading_factor,
                bandwidth_hz,
                coding_rate_denominator,
                preamble_symbols,
                explicit_header,
                crc_enabled,
            ),
        },
{
    if payload_len > MAX_PHY_FRAME_LEN {
        return Err(Error::FrameTooLong(payload_len));
    }
    if spreading_factor < 5 || spreading_factor > 12 {
        return Err(Error::InvalidField("spreading_factor"));
    }
    if bandwidth_hz == 0 {
        return Err(Error::InvalidField("bandwidth_hz"));
    }
    if coding_rate_denominator < 5 || coding_rate_denominator > 8 {
        return Err(Error::InvalidField("coding_rate_denominator"));
    }
    let symbol: u64 = symbol_numerator_of(spreading_factor);
    let low_data_rate_optimization = symbol >= 16_000 * bandwidth_hz as u64;
    let ih: i64 = if explicit_header {
        0
    } else {
        1
    };
    let crc: i64 = if crc_enabled {
        1
    } else {
        0
    };
    let de: i64 = if low_data_rate_optimization {
        1
    } else {
        0
    };
    let numerator: i64 = 8 * payload_len as i64 - 4 * spreading_factor as i64 + 28 + 16 * crc - 20
        * ih;
    let denominator: i64 = 4 * (spreading_factor as i64 - 2 * de);
    let blocks: u64 = if numerator <= 0 {
        0
    } else {
        assert((numerator + denominator - 1) / (denominator as int) <= numerator + denominator)
            by (nonlinear_arith)
            requires
                0 < numerator,
                0 < denominator,
        ;
        assert(0 <= (numerator + denominator - 1) / (denominator as int)) by (nonlinear_arith)
            requires
                0 < numerator,
                0 < denominator,
        ;
        ((numerator + denominator - 1) / denominator) as u64
    };
    assert(blocks == coded_blocks(
        payload_len,
        spreading_factor,
        bandwidth_hz,
        explicit_header,
        crc_enabled,
    ));
    assert(blocks <= 3_000);
    assert(0 <= blocks * coding_rate_denominator <= 24_000) by (nonlinear_arith)
        requires
            0 <= blocks <= 3_000,
            0 <= coding_rate_denominator <= 8,
    ;
    let payload_symbols: u64 = 8 + blocks * coding_rate_denominator as u64;
    let total_quarter_symbols: u64 = 4 * (preamble_symbols as u64 + payload_symbols) + 17;
    assert(0 <= total_quarter_symbols * symbol <= 1_000_000 * 4_096_000_000) by (nonlinear_arith)
        requires
            0 <= total_quarter_symbols <= 1_000_000,
            0 <= symbol <= 4_096_000_000,
    ;
    let airtime_numerator: u64 = total_quarter_symbols * symbol;
    let airtime_denominator: u64 = 4 * bandwidth_hz as u64;
    Ok((airtime_numerator + (airtime_denominator - 1)) / airtime_denominator)
}

/// One million times the number of chips in a symbol.
fn symbol_numerator_of(spreading_factor: u8) -> (numerator: u64)
    requires
        5 <= spreading_factor <= 12,
    ensures
        numerator == symbol_numerator(spreading_factor),
        numerator <= 4_096_000_000,
{
    proof {
        power2::lemma2_to64();
        bits::lemma_u64_shl_is_mul(1, spreading_factor as u64);
    }
    (1u64 << (spreading_factor as u64)) * 1_000_000
}

} // verus!
