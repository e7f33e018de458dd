//! Allocation-free codec for Vesta telemetry protocol v2.
//!
//! Version 2 uses a distinct version byte, variable record lengths, and
//! deterministic profile fragmentation.

pub mod airtime;
pub mod checks;
pub mod config;
pub mod frame;
pub mod hash;
pub mod header;
pub mod health;
pub mod laws;
pub mod message;
pub mod profile;
pub mod rules;
pub mod types;

pub use crate::v2::airtime::lora_time_on_air_us;
pub use crate::v2::config::{device_config_id, encode_device_config};
pub use crate::v2::frame::{decode, DecodedFrame, FrameModel};
pub use crate::v2::hash::fnv1a64;
pub use crate::v2::health::encode_device_health;
pub use crate::v2::profile::{
    encode_profile, EncodedProfile, FragmentModel, ProfileFragmentView, ScanSummary,
};
pub use crate::v2::types::{
    BUILD_FLAGS_KNOWN, BUILD_FLAG_DEBUG_SLEEP, BUILD_FLAG_DIRTY, BUILD_FLAG_ID_VALID,
    COLLECTION_FLAGS_KNOWN, COLLECTION_FLAG_CONFIG_MISMATCH, COLLECTION_FLAG_DUPLICATE,
    COLLECTION_FLAG_GAS_INDEX_OUT_OF_RANGE, COLLECTION_FLAG_HEATER_UNSTABLE,
    COLLECTION_FLAG_I2C_ERROR, COLLECTION_FLAG_INVALID_GAS,
    COLLECTION_FLAG_MEASUREMENT_DISCONTINUITY, COLLECTION_FLAG_NO_NEW_DATA,
    COLLECTION_FLAG_OBSERVATION_OVERFLOW, COLLECTION_FLAG_OVERWRITTEN,
    COLLECTION_FLAG_POLL_BUDGET_EXHAUSTED, COLLECTION_FLAG_SENSOR_RECONFIGURED,
    COLLECTION_FLAG_STALE_PRE_SCAN_FIELDS, COLLECTION_FLAG_TIMEOUT, COMMON_FLAGS_KNOWN,
    COMMON_FLAG_BOOT_ID_FROM_HW_RNG, COMMON_FLAG_BOOT_ID_VALID, COMMON_FLAG_CONFIG_REPEAT,
    CONFIG_BASE_LEN, CONFIG_FLAGS_KNOWN, CONFIG_FLAG_CALIBRATION_HASH_VALID,
    CONFIG_FLAG_SENSOR_CONFIG_READ_BACK, CONFIG_SCHEMA_VERSION, CONFIG_STEP_LEN, Common,
    DeviceConfig, DeviceHealth, EncodedFrame, Error, FINISH_REASON_COMPLETE,
    FINISH_REASON_POLL_BUDGET, FINISH_REASON_PROFILE_ROLLOVER, FINISH_REASON_SENSOR_ERROR,
    FINISH_REASON_TIMEOUT, FrameType, HEADER_LEN, HEALTH_BASE_LEN, HEALTH_FLAGS_KNOWN,
    HEALTH_FLAG_BOOT_ID_UNAVAILABLE, HEALTH_FLAG_CONFIG_MISMATCH,
    HEALTH_FLAG_COUNTERS_SATURATED, HEALTH_FLAG_LAST_SCAN_INCOMPLETE,
    HEALTH_FLAG_RADIO_ERROR_SEEN, HEALTH_FLAG_SENSOR_ERROR_SEEN, HEALTH_SCHEMA_VERSION,
    Header, HeaterStepConfig, MAGIC, MAX_CONFIG_FRAME_LEN, MAX_HEALTH_EXTENSION_LEN,
    MAX_HEALTH_FRAME_LEN, MAX_PHY_FRAME_LEN, MAX_PROFILE_FRAGMENTS, MAX_PROFILE_FRAME_LEN,
    MAX_PROFILE_FRAME_LEN_U8, MAX_PROFILE_STEPS, MAX_PROFILE_STEPS_U8, MAX_V2_FRAME_LEN,
    MAX_V2_FRAME_LEN_U8, OUTPUT_ROUTES_KNOWN, OUTPUT_ROUTE_LORA_P2P, OUTPUT_ROUTE_RTT,
    OUTPUT_ROUTE_UART_COBS_CRC32, PROFILE_FRAGMENT_META_LEN, PROFILE_SCHEMA_VERSION,
    PROFILE_STEP_LEN, ProfileScan, ProfileStep, RESET_CAUSE_FLAGS_KNOWN, STEPS_PER_FRAGMENT,
    STEPS_PER_FRAGMENT_U8, V1_FRAME_LEN, VERSION_V1, VERSION_V2,
};
