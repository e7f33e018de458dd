//! Decoding of any v2 frame.

use vstd::prelude::*;

use crate::v2::config;
use crate::v2::config::decode_device_config;
use crate::v2::header;
use crate::v2::header::decode_header;
use crate::v2::health;
use crate::v2::health::decode_device_health;
use crate::v2::profile;
use crate::v2::profile::{decode_profile_fragment, FragmentModel, ProfileFragmentView};
use crate::v2::types::{DeviceConfig, DeviceHealth, Error, FrameType, Header, HEADER_LEN};

verus! {

/// Borrowed decoder result. No record needs allocation.
#[derive(Clone, Copy, Debug, Eq, PartialEq)]
pub enum DecodedFrame<'a> {
    DeviceConfig { header: Header, config: DeviceConfig },
    ProfileFragment(ProfileFragmentView<'a>),
    DeviceHealth { header: Header, health: DeviceHealth },
}

/// What a frame says.
#[verifier::ext_equal]
pub enum FrameModel {
    DeviceConfig { header: Header, config: DeviceConfig },
    ProfileFragment(FragmentModel),
    DeviceHealth { header: Header, health: DeviceHealth },
}

impl FrameModel {
    /// The header of this frame.
    pub open spec fn header(self) -> Header {
        match self {
            FrameModel::DeviceConfig { header, .. } => header,
            FrameModel::ProfileFragment(fragment) => fragment.header,
            FrameModel::DeviceHealth { header, .. } => header,
        }
    }
}

impl<'a> DecodedFrame<'a> {
    /// What this frame says.
    pub open spec fn model(self) -> FrameModel {
        match self {
            DecodedFrame::DeviceConfig { header, config } => FrameModel::DeviceConfig {
                header,
                config,
            },
            DecodedFrame::ProfileFragment(fragment) => FrameModel::ProfileFragment(
                fragment.model(),
            ),
            DecodedFrame::DeviceHealth { header, health } => FrameModel::DeviceHealth {
                header,
                health,
            },
        }
    }

    /// Whether a configuration or a profile fragment breaks no rule of the wire
    /// format.
    pub open spec fn valid(self) -> bool {
        match self {
            DecodedFrame::DeviceConfig { config, .. } => config::config_fault(config) is None,
            DecodedFrame::ProfileFragment(fragment) => fragment.valid(),
            DecodedFrame::DeviceHealth { .. } => true,
        }
    }
}

/// What a frame says, or the first rule that it breaks.
pub open spec fn decoded(bytes: Seq<u8>) -> Result<FrameModel, Error> {
    match header::decoded_header(bytes) {
        Err(error) => Err(error),
        Ok(header) => {
            let payload = bytes.subrange(HEADER_LEN as int, bytes.len() as int);
            match header.frame_type {
                FrameType::DeviceConfig => match config::decoded_config(header, payload) {
                    Ok(config) => Ok(FrameModel::DeviceConfig { header, config }),
                    Err(error) => Err(error),
                },
                FrameType::ProfileFragment => match profile::decoded_fragment(header, payload) {
                    Ok(fragment) => Ok(FrameModel::ProfileFragment(fragment)),
                    Err(error) => Err(error),
                },
                FrameType::DeviceHealth => match health::decoded_health(header, payload) {
                    Ok(health) => Ok(FrameModel::DeviceHealth { header, health }),
                    Err(error) => Err(error),
                },
            }
        },
    }
}

/// The bytes of a frame.
pub open spec fn frame_bytes(model: FrameModel) -> Seq<u8> {
    match model {
        FrameModel::DeviceConfig { header, config } => header::header_bytes(header)
            + config::config_bytes(config),
        FrameModel::ProfileFragment(fragment) => profile::fragment_frame(fragment),
        FrameModel::DeviceHealth { header, health } => header::header_bytes(header)
            + health::health_bytes(health),
    }
}

/// Decode and structurally validate any v2 record. It rejects truncation,
/// trailing bytes, impossible fragment coordinates, and non-canonical profile
/// fragments without indexing outside the supplied slice.
///
/// # Errors
///
/// Returns an [`Error`] for malformed framing, unsupported record values,
/// inconsistent lengths, or invalid record-specific structure.
pub fn decode(bytes: &[u8]) -> (result: Result<DecodedFrame<'_>, Error>)
    ensures
        match decoded(bytes@) {
            Ok(model) => result is Ok && result->Ok_0.model() == model && result->Ok_0.valid(),
            Err(error) => result == Err::<DecodedFrame<'_>, Error>(error),
        },
{
    let header = decode_header(bytes)?;
    let payload = &bytes[HEADER_LEN..bytes.len()];
    match header.frame_type {
        FrameType::DeviceConfig => {
            let config = decode_device_config(header, payload)?;
            Ok(DecodedFrame::DeviceConfig { header, config })
        },
        FrameType::ProfileFragment => {
            let fragment = decode_profile_fragment(header, payload)?;
            Ok(DecodedFrame::ProfileFragment(fragment))
        },
        FrameType::DeviceHealth => {
            let health = decode_device_health(header, payload)?;
            Ok(DecodedFrame::DeviceHealth { header, health })
        },
    }
}

} // verus!
