//! Vesta wildfire telemetry: the wire codec, reassembly of profile scans, analysis
//! of what was measured, and the rules of a receiver around them.

pub mod analysis;
pub mod convert;
pub mod hex;
pub mod reassembly;
pub mod records;
pub mod render;
pub mod session;
pub mod storage;
pub mod sx1262;
pub mod telemetry;
pub mod text;
pub mod v2;
pub mod wire;

pub use crate::hex::{
    decode_hex, parse_frame_hex, parse_payload_hex, HexError, TextDecodeError, FRAME_HEX_LEN,
};
pub use crate::render::OutputFormat;
pub use crate::sx1262::RadioMetadata;
pub use crate::telemetry::{
    decode_any, Bme68xStatus, CompensatedReadings, DecodeError, DecodedTelemetry, GasResistance,
    Pressure, ProtocolDecodeError, RawReadings, RelativeHumidity, TelemetryV1, Temperature,
    FRAME_LEN, MAGIC, VERSION,
};
