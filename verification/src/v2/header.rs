//! The 48-byte header that every v2 frame starts with.

use vstd::prelude::*;

use crate::v2::checks;
use crate::v2::checks::{ensure_known_u16, ensure_known_u8};
use crate::v2::types;
use crate::v2::types::{
    Common, EncodedFrame, Error, FrameType, Header, COMMON_FLAGS_KNOWN,
    COMMON_FLAG_BOOT_ID_FROM_HW_RNG, COMMON_FLAG_BOOT_ID_VALID, HEADER_LEN, MAGIC,
    MAX_PHY_FRAME_LEN, RESET_CAUSE_FLAGS_KNOWN, VERSION_V2,
};
use crate::wire;
use crate::wire::{read_u16, read_u32, read_u64};

verus! {

/// The bytes of a header.
pub open spec fn header_bytes(header: Header) -> Seq<u8> {
    Seq::<u8>::empty() + wire::b8(MAGIC[0]) + wire::b8(MAGIC[1]) + wire::b8(VERSION_V2) + wire::b8(
        header.frame_type.code(),
    ) + wire::b8(48) + wire::b8(header.common.flags) + wire::b8(header.fragment_index) + wire::b8(header.fragment_count)
        + wire::b16(header.payload_len) + wire::b64(header.common.node_id) + wire::b64(header.common.boot_id) + wire::b32(
        header.common.scan_sequence,
    ) + wire::b64(header.common.uptime_ms) + wire::b64(header.common.config_id) + wire::b16(
        header.common.reset_cause_flags,
    )
}

/// The common fields at their places in a frame.
pub open spec fn common_at(bytes: Seq<u8>) -> Common {
    Common {
        flags: bytes[5],
        node_id: wire::be64(bytes, 10),
        boot_id: wire::be64(bytes, 18),
        scan_sequence: wire::be32(bytes, 26),
        uptime_ms: wire::be64(bytes, 30),
        config_id: wire::be64(bytes, 38),
        reset_cause_flags: wire::be16(bytes, 46),
    }
}

/// The fault of fragment coordinates that name no fragment.
pub open spec fn coordinates_fault(fragment_index: u8, fragment_count: u8) -> Option<Error> {
    if fragment_count == 0 {
        Some(Error::InvalidFragmentCount(fragment_count))
    } else if fragment_index >= fragment_count {
        Some(Error::InvalidFragmentIndex { index: fragment_index, count: fragment_count })
    } else {
        None
    }
}

/// The fault of a boot ID that its flags contradict.
pub open spec fn boot_id_fault(flags: u8, boot_id: u64) -> Option<Error> {
    if flags & COMMON_FLAG_BOOT_ID_FROM_HW_RNG != 0 && flags & COMMON_FLAG_BOOT_ID_VALID == 0 {
        Some(Error::InvalidField("boot_id_flags"))
    } else if flags & COMMON_FLAG_BOOT_ID_VALID == 0 && boot_id != 0 {
        Some(Error::InvalidField("invalid_boot_id_value"))
    } else {
        None
    }
}

/// The fault of common fields that no frame may carry.
pub open spec fn common_fault(common: Common) -> Option<Error> {
    checks::first_fault(
        checks::unknown_flags_u8("common_flags", common.flags, COMMON_FLAGS_KNOWN),
        checks::first_fault(
            boot_id_fault(common.flags, common.boot_id),
            checks::unknown_flags_u16("reset_cause_flags", common.reset_cause_flags, RESET_CAUSE_FLAGS_KNOWN),
        ),
    )
}

/// The header that a frame carries, or the reason why it carries none.
pub open spec fn decoded_header(bytes: Seq<u8>) -> Result<Header, Error> {
    if bytes.len() < HEADER_LEN {
        Err(Error::WrongLength { expected: HEADER_LEN, actual: bytes.len() as usize })
    } else if bytes[0] != MAGIC[0] || bytes[1] != MAGIC[1] {
        Err(Error::InvalidMagic([bytes[0], bytes[1]]))
    } else if bytes[2] != VERSION_V2 {
        Err(Error::UnsupportedVersion(bytes[2]))
    } else {
        match types::frame_type_of(bytes[3]) {
            Err(error) => Err(error),
            Ok(frame_type) => {
                let common = common_at(bytes);
                let payload_len = wire::be16(bytes, 8);
                if bytes[4] != 48 {
                    Err(Error::InvalidHeaderLength(bytes[4]))
                } else {
                    match checks::first_fault(
                        checks::unknown_flags_u8("common_flags", common.flags, COMMON_FLAGS_KNOWN),
                        checks::first_fault(
                            coordinates_fault(bytes[6], bytes[7]),
                            checks::first_fault(
                                checks::unknown_flags_u16(
                                    "reset_cause_flags",
                                    common.reset_cause_flags,
                                    RESET_CAUSE_FLAGS_KNOWN,
                                ),
                                boot_id_fault(common.flags, common.boot_id),
                            ),
                        ),
                    ) {
                        Some(error) => Err(error),
                        None => if bytes.len() != HEADER_LEN + payload_len {
                            Err(
                                Error::WrongLength {
                                    expected: (HEADER_LEN + payload_len) as usize,
                                    actual: bytes.len() as usize,
                                },
                            )
                        } else {
                            Ok(
                                Header {
                                    frame_type,
                                    common,
                                    fragment_index: bytes[6],
                                    fragment_count: bytes[7],
                                    payload_len,
                                },
                            )
                        },
                    }
                }
            },
        }
    }
}

/// A header is 48 bytes long and every field stands at its place.
pub proof fn lemma_header_layout(header: Header, payload: Seq<u8>)
    ensures
        header_bytes(header).len() == HEADER_LEN,
        ({
            let s = header_bytes(header) + payload;
            &&& s.len() == HEADER_LEN + payload.len()
            &&& s[0] == MAGIC[0]
            &&& s[1] == MAGIC[1]
            &&& s[2] == VERSION_V2
            &&& s[3] == header.frame_type.code()
            &&& s[4] == 48
            &&& s[6] == header.fragment_index
            &&& s[7] == header.fragment_count
            &&& wire::be16(s, 8) == header.payload_len
            &&& common_at(s) == header.common
            &&& s.subrange(HEADER_LEN as int, s.len() as int) == payload
        }),
{
    let c = header.common;
    let s0 = Seq::<u8>::empty();
    let s1 = s0 + wire::b8(MAGIC[0]);
    wire::lemma_append8(s0, MAGIC[0]);
    let s2 = s1 + wire::b8(MAGIC[1]);
    wire::lemma_append8(s1, MAGIC[1]);
    let s3 = s2 + wire::b8(VERSION_V2);
    wire::lemma_append8(s2, VERSION_V2);
    let s4 = s3 + wire::b8(header.frame_type.code());
    wire::lemma_append8(s3, header.frame_type.code());
    let s5 = s4 + wire::b8(48);
    wire::lemma_append8(s4, 48);
    let s6 = s5 + wire::b8(c.flags);
    wire::lemma_append8(s5, c.flags);
    let s7 = s6 + wire::b8(header.fragment_index);
    wire::lemma_append8(s6, header.fragment_index);
    let s8 = s7 + wire::b8(header.fragment_count);
    wire::lemma_append8(s7, header.fragment_count);
    let s9 = s8 + wire::b16(header.payload_len);
    wire::lemma_append16(s8, header.payload_len);
    let s10 = s9 + wire::b64(c.node_id);
    wire::lemma_append64(s9, c.node_id);
    let s11 = s10 + wire::b64(c.boot_id);
    wire::lemma_append64(s10, c.boot_id);
    let s12 = s11 + wire::b32(c.scan_sequence);
    wire::lemma_append32(s11, c.scan_sequence);
    let s13 = s12 + wire::b64(c.uptime_ms);
    wire::lemma_append64(s12, c.uptime_ms);
    let s14 = s13 + wire::b64(c.config_id);
    wire::lemma_append64(s13, c.config_id);
    let s15 = s14 + wire::b16(c.reset_cause_flags);
    wire::lemma_append16(s14, c.reset_cause_flags);
    assert(s15 == header_bytes(header));
    wire::lemma_kept_by_append(s15, payload);
    let s = s15 + payload;
    assert(s.subrange(HEADER_LEN as int, s.len() as int) =~= payload);
}

/// Decoding a header's bytes gives the header back.
pub proof fn lemma_header_round_trip(header: Header, payload: Seq<u8>)
    requires
        payload.len() == header.payload_len,
        common_fault(header.common) is None,
        coordinates_fault(header.fragment_index, header.fragment_count) is None,
    ensures
        decoded_header(header_bytes(header) + payload) == Ok::<Header, Error>(header),
{
    lemma_header_layout(header, payload);
}

/// A frame whose header decodes starts with the bytes of that header.
pub proof fn lemma_header_canonical(bytes: Seq<u8>, header: Header)
    requires
        decoded_header(bytes) == Ok::<Header, Error>(header),
    ensures
        bytes == header_bytes(header) + bytes.subrange(HEADER_LEN as int, bytes.len() as int),
        common_fault(header.common) is None,
        coordinates_fault(header.fragment_index, header.fragment_count) is None,
        bytes.len() == HEADER_LEN + header.payload_len,
{
    let payload = bytes.subrange(HEADER_LEN as int, bytes.len() as int);
    let s = header_bytes(header) + payload;
    lemma_header_layout(header, payload);
    wire::lemma_same16(s, bytes, 8);
    wire::lemma_same64(s, bytes, 10);
    wire::lemma_same64(s, bytes, 18);
    wire::lemma_same32(s, bytes, 26);
    wire::lemma_same64(s, bytes, 30);
    wire::lemma_same64(s, bytes, 38);
    wire::lemma_same16(s, bytes, 46);
    assert forall|i: int| 0 <= i < s.len() implies s[i] == bytes[i] by {
        if i >= HEADER_LEN {
            assert(s[i] == payload[i - HEADER_LEN]);
        }
    }
    assert(s =~= bytes);
}

/// Encodes a header.
pub(crate) fn encode_header(
    frame_type: FrameType,
    common: Common,
    fragment_index: u8,
    fragment_count: u8,
    payload_len: u16,
) -> (result: Result<EncodedFrame, Error>)
    requires
        fragment_index < fragment_count,
        HEADER_LEN + payload_len <= MAX_PHY_FRAME_LEN,
    ensures
        result is Err ==> common_fault(common) == Some(result->Err_0),
        result is Ok ==> common_fault(common) is None && result->Ok_0@ == header_bytes(
            (Header { frame_type, common, fragment_index, fragment_count, payload_len }),
        ),
{
    ensure_known_u8("common_flags", common.flags, COMMON_FLAGS_KNOWN)?;
    check_boot_id(common.flags, common.boot_id)?;
    ensure_known_u16("reset_cause_flags", common.reset_cause_flags, RESET_CAUSE_FLAGS_KNOWN)?;
    let mut writer = EncodedFrame::empty();
    writer.u8(MAGIC[0]);
    writer.u8(MAGIC[1]);
    writer.u8(VERSION_V2);
    writer.u8(frame_type.wire_code());
    writer.u8(48);
    writer.u8(common.flags);
    writer.u8(fragment_index);
    writer.u8(fragment_count);
    writer.u16(payload_len);
    writer.u64(common.node_id);
    writer.u64(common.boot_id);
    writer.u32(common.scan_sequence);
    writer.u64(common.uptime_ms);
    writer.u64(common.config_id);
    writer.u16(common.reset_cause_flags);
    Ok(writer)
}

/// Rejects a boot ID that its flags contradict.
fn check_boot_id(flags: u8, boot_id: u64) -> (result: Result<(), Error>)
    ensures
        result == checks::verdict(boot_id_fault(flags, boot_id)),
{
    if flags & COMMON_FLAG_BOOT_ID_FROM_HW_RNG != 0 && flags & COMMON_FLAG_BOOT_ID_VALID == 0 {
        return Err(Error::InvalidField("boot_id_flags"));
    }
    if flags & COMMON_FLAG_BOOT_ID_VALID == 0 && boot_id != 0 {
        return Err(Error::InvalidField("invalid_boot_id_value"));
    }
    Ok(())
}

/// Decodes the header of a frame and checks the frame's length against it.
pub(crate) fn decode_header(bytes: &[u8]) -> (result: Result<Header, Error>)
    ensures
        result == decoded_header(bytes@),
{
    if bytes.len() < HEADER_LEN {
        return Err(Error::WrongLength { expected: HEADER_LEN, actual: bytes.len() });
    }
    if bytes[0] != MAGIC[0] || bytes[1] != MAGIC[1] {
        return Err(Error::InvalidMagic([bytes[0], bytes[1]]));
    }
    let version: u8 = bytes[2];
    if version != VERSION_V2 {
        return Err(Error::UnsupportedVersion(version));
    }
    let frame_type = FrameType::try_from(bytes[3])?;
    let header_len: u8 = bytes[4];
    if header_len as usize != HEADER_LEN {
        return Err(Error::InvalidHeaderLength(header_len));
    }
    let flags: u8 = bytes[5];
    ensure_known_u8("common_flags", flags, COMMON_FLAGS_KNOWN)?;
    let fragment_index: u8 = bytes[6];
    let fragment_count: u8 = bytes[7];
    if fragment_count == 0 {
        return Err(Error::InvalidFragmentCount(fragment_count));
    }
    if fragment_index >= fragment_count {
        return Err(
            Error::InvalidFragmentIndex { index: fragment_index, count: fragment_count },
        );
    }
    let payload_len: u16 = read_u16(bytes, 8);
    let common = Common {
        flags,
        node_id: read_u64(bytes, 10),
        boot_id: read_u64(bytes, 18),
        scan_sequence: read_u32(bytes, 26),
        uptime_ms: read_u64(bytes, 30),
        config_id: read_u64(bytes, 38),
        reset_cause_flags: read_u16(bytes, 46),
    };
    ensure_known_u16("reset_cause_flags", common.reset_cause_flags, RESET_CAUSE_FLAGS_KNOWN)?;
    check_boot_id(flags, common.boot_id)?;
    let expected_len: usize = HEADER_LEN + payload_len as usize;
    if bytes.len() != expected_len {
        return Err(Error::WrongLength { expected: expected_len, actual: bytes.len() });
    }
    Ok(Header { frame_type, common, fragment_index, fragment_count, payload_len })
}

} // verus!
