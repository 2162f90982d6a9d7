//! Binary layout of the kernel's `HDR_OUTPUT_METADATA` blob (`struct hdr_output_metadata`).
//!
//! All fields are little endian: a four byte metadata type, followed by the infoframe and two
//! bytes of padding.

use vstd::prelude::*;

use crate::metadata::{CtaCoordinate, Eotf};

verus! {

/// Static Metadata Type 1 descriptor id (CTA-861.3).
pub const HDMI_STATIC_METADATA_TYPE1: u32 = 0;

/// Length of the blob without the padding.
pub const PAYLOAD_LEN: usize = 30;

/// Length of the blob.
pub const BLOB_LEN: usize = 32;

#[derive(Debug, Clone, Copy, PartialEq, Eq, Structural)]
pub struct HdrColorPoint {
    pub x: u16,
    pub y: u16,
}

/// `struct hdr_metadata_infoframe`.
#[derive(Debug, Clone, Copy, PartialEq, Eq)]
pub struct HdrMetadataInfoframe {
    pub eotf: u8,
    pub metadata_type: u8,
    pub display_primaries: [HdrColorPoint; 3],
    pub white_point: HdrColorPoint,
    pub max_display_mastering_luminance: u16,
    pub min_display_mastering_luminance: u16,
    pub max_cll: u16,
    pub max_fall: u16,
}

/// `struct hdr_output_metadata`.
#[derive(Debug, Clone, Copy, PartialEq, Eq)]
pub struct HdrOutputMetadata {
    pub metadata_type: u32,
    pub hdmi_metadata_type1: HdrMetadataInfoframe,
}

pub open spec fn point_of(c: CtaCoordinate) -> HdrColorPoint {
    HdrColorPoint { x: c.x, y: c.y }
}

fn point(c: CtaCoordinate) -> (r: HdrColorPoint)
    ensures
        r == point_of(c),
{
    HdrColorPoint { x: c.x, y: c.y }
}

/// The kernel structure describes the metadata.
pub open spec fn describes(raw: HdrOutputMetadata, meta: crate::metadata::HdrOutputMetadata) -> bool {
    let info = raw.hdmi_metadata_type1;
    &&& raw.metadata_type == HDMI_STATIC_METADATA_TYPE1
    &&& info.eotf == meta.eotf.raw()
    &&& info.metadata_type == HDMI_STATIC_METADATA_TYPE1
    &&& info.display_primaries@[0] == point_of(meta.display_primaries@[0])
    &&& info.display_primaries@[1] == point_of(meta.display_primaries@[1])
    &&& info.display_primaries@[2] == point_of(meta.display_primaries@[2])
    &&& info.white_point == point_of(meta.white_point)
    &&& info.max_display_mastering_luminance == meta.max_display_mastering_luminance
    &&& info.min_display_mastering_luminance == meta.min_display_mastering_luminance
    &&& info.max_cll == meta.max_cll
    &&& info.max_fall == meta.max_fall
}

/// The little endian 16 bit value at `off`.
pub open spec fn u16_at(bytes: Seq<u8>, off: int) -> int {
    bytes[off] + 256 * bytes[off + 1]
}

/// The little endian 32 bit value at `off`.
pub open spec fn u32_at(bytes: Seq<u8>, off: int) -> int {
    u16_at(bytes, off) + 0x1_0000 * u16_at(bytes, off + 2)
}

pub open spec fn point_at(bytes: Seq<u8>, off: int, p: HdrColorPoint) -> bool {
    p.x == u16_at(bytes, off) && p.y == u16_at(bytes, off + 2)
}

/// The bytes start with the fields of the structure.
pub open spec fn encodes(bytes: Seq<u8>, raw: HdrOutputMetadata) -> bool {
    let info = raw.hdmi_metadata_type1;
    &&& bytes.len() >= PAYLOAD_LEN
    &&& u32_at(bytes, 0) == raw.metadata_type
    &&& bytes[4] == info.eotf
    &&& bytes[5] == info.metadata_type
    &&& point_at(bytes, 6, info.display_primaries@[0])
    &&& point_at(bytes, 10, info.display_primaries@[1])
    &&& point_at(bytes, 14, info.display_primaries@[2])
    &&& point_at(bytes, 18, info.white_point)
    &&& u16_at(bytes, 22) == info.max_display_mastering_luminance
    &&& u16_at(bytes, 24) == info.min_display_mastering_luminance
    &&& u16_at(bytes, 26) == info.max_cll
    &&& u16_at(bytes, 28) == info.max_fall
}

/// The bytes can be read as metadata.
pub open spec fn parses(bytes: Seq<u8>) -> bool {
    bytes.len() >= PAYLOAD_LEN && u32_at(bytes, 0) == HDMI_STATIC_METADATA_TYPE1 && bytes[4] <= 3
}

/// The bytes hold the metadata; the infoframe's own type byte is not looked at.
pub open spec fn holds(bytes: Seq<u8>, meta: crate::metadata::HdrOutputMetadata) -> bool {
    &&& bytes.len() >= PAYLOAD_LEN
    &&& u32_at(bytes, 0) == HDMI_STATIC_METADATA_TYPE1
    &&& bytes[4] == meta.eotf.raw()
    &&& point_at(bytes, 6, point_of(meta.display_primaries@[0]))
    &&& point_at(bytes, 10, point_of(meta.display_primaries@[1]))
    &&& point_at(bytes, 14, point_of(meta.display_primaries@[2]))
    &&& point_at(bytes, 18, point_of(meta.white_point))
    &&& u16_at(bytes, 22) == meta.max_display_mastering_luminance
    &&& u16_at(bytes, 24) == meta.min_display_mastering_luminance
    &&& u16_at(bytes, 26) == meta.max_cll
    &&& u16_at(bytes, 28) == meta.max_fall
}

fn read_u16(bytes: &[u8], off: usize) -> (r: u16)
    requires
        off + 1 < bytes@.len(),
    ensures
        r == u16_at(bytes@, off as int),
{
    bytes[off] as u16 + 256 * (bytes[off + 1] as u16)
}

fn read_coordinate(bytes: &[u8], off: usize) -> (r: CtaCoordinate)
    requires
        off <= PAYLOAD_LEN,
        off + 3 < bytes@.len(),
    ensures
        point_at(bytes@, off as int, point_of(r)),
{
    CtaCoordinate { x: read_u16(bytes, off), y: read_u16(bytes, off + 2) }
}

fn push_u16(out: &mut Vec<u8>, v: u16)
    ensures
        final(out)@ == old(out)@.push((v % 256) as u8).push((v / 256) as u8),
{
    out.push((v % 256) as u8);
    out.push((v / 256) as u8);
}

impl HdrOutputMetadata {
    /// The kernel structure for the metadata.
    pub fn new(meta: crate::metadata::HdrOutputMetadata) -> (r: Self)
        ensures
            describes(r, meta),
    {
        HdrOutputMetadata {
            metadata_type: HDMI_STATIC_METADATA_TYPE1,
            hdmi_metadata_type1: HdrMetadataInfoframe {
                eotf: meta.eotf.to_raw(),
                metadata_type: 0,
                display_primaries: [
                    point(meta.display_primaries[0]),
                    point(meta.display_primaries[1]),
                    point(meta.display_primaries[2]),
                ],
                white_point: point(meta.white_point),
                max_display_mastering_luminance: meta.max_display_mastering_luminance,
                min_display_mastering_luminance: meta.min_display_mastering_luminance,
                max_cll: meta.max_cll,
                max_fall: meta.max_fall,
            },
        }
    }

    /// Contents of the blob. The padding is zero.
    pub fn to_bytes(&self) -> (out: Vec<u8>)
        ensures
            out@.len() == BLOB_LEN,
            encodes(out@, *self),
            out@[30] == 0,
            out@[31] == 0,
    {
        let info = self.hdmi_metadata_type1;
        let mut out: Vec<u8> = Vec::new();
        push_u16(&mut out, (self.metadata_type % 0x1_0000) as u16);
        push_u16(&mut out, (self.metadata_type / 0x1_0000) as u16);
        out.push(info.eotf);
        out.push(info.metadata_type);
        push_u16(&mut out, info.display_primaries[0].x);
        push_u16(&mut out, info.display_primaries[0].y);
        push_u16(&mut out, info.display_primaries[1].x);
        push_u16(&mut out, info.display_primaries[1].y);
        push_u16(&mut out, info.display_primaries[2].x);
        push_u16(&mut out, info.display_primaries[2].y);
        push_u16(&mut out, info.white_point.x);
        push_u16(&mut out, info.white_point.y);
        push_u16(&mut out, info.max_display_mastering_luminance);
        push_u16(&mut out, info.min_display_mastering_luminance);
        push_u16(&mut out, info.max_cll);
        push_u16(&mut out, info.max_fall);
        out.push(0);
        out.push(0);
        out
    }

    /// Parses the contents of a blob.
    ///
    /// Returns `None` if the blob is too short, describes a different metadata type or uses an
    /// unknown transfer function. Trailing bytes are ignored.
    pub fn parse(bytes: &[u8]) -> (r: Option<crate::metadata::HdrOutputMetadata>)
        ensures
            match r {
                Some(meta) => holds(bytes@, meta),
                None => true,
            },
            r is Some == parses(bytes@),
    {
        if bytes.len() < PAYLOAD_LEN {
            return None;
        }
        let low: u16 = read_u16(bytes, 0);
        let high: u16 = read_u16(bytes, 2);
        if low != 0 || high != 0 {
            return None;
        }
        match Eotf::from_raw(bytes[4]) {
            None => None,
            Some(eotf) => Some(
                crate::metadata::HdrOutputMetadata {
                    eotf,
                    display_primaries: [
                        read_coordinate(bytes, 6),
                        read_coordinate(bytes, 10),
                        read_coordinate(bytes, 14),
                    ],
                    white_point: read_coordinate(bytes, 18),
                    max_display_mastering_luminance: read_u16(bytes, 22),
                    min_display_mastering_luminance: read_u16(bytes, 24),
                    max_cll: read_u16(bytes, 26),
                    max_fall: read_u16(bytes, 28),
                },
            ),
        }
    }
}

/// The blob of a kernel structure holds the metadata that the structure describes, and no
/// other: reading a written blob gives the metadata back.
pub proof fn law_parse_undoes_to_bytes(
    bytes: Seq<u8>,
    raw: HdrOutputMetadata,
    meta: crate::metadata::HdrOutputMetadata,
    read: crate::metadata::HdrOutputMetadata,
)
    requires
        describes(raw, meta),
        encodes(bytes, raw),
    ensures
        bytes[4] <= 3,
        holds(bytes, meta),
        holds(bytes, read) ==> read.same(meta),
{
}

/// The blob is laid out as the kernel has it: type and infoframe header, the primaries in the
/// order red, green, blue, the white point, then the largest and smallest luminance of the
/// mastering display and the content and frame average light levels, low byte first.
pub proof fn law_blob_layout(
    meta: crate::metadata::HdrOutputMetadata,
    raw: HdrOutputMetadata,
    bytes: Vec<u8>,
)
    requires
        call_ensures(HdrOutputMetadata::new, (meta,), raw),
        call_ensures(HdrOutputMetadata::to_bytes, (&raw,), bytes),
    ensures
        ({
            let word = |k: int| bytes@[2 * k] + 256 * bytes@[2 * k + 1];
            let p = meta.display_primaries@;
            &&& bytes@.len() == 32
            &&& word(0) == 0 && word(1) == 0 && bytes@[5] == 0 && word(15) == 0
            &&& meta.eotf is TraditionalSdr <==> bytes@[4] == 0
            &&& meta.eotf is TraditionalHdr <==> bytes@[4] == 1
            &&& meta.eotf is SmpteSt2084 <==> bytes@[4] == 2
            &&& meta.eotf is Hlg <==> bytes@[4] == 3
            &&& word(3) == p[0].x && word(4) == p[0].y
            &&& word(5) == p[1].x && word(6) == p[1].y
            &&& word(7) == p[2].x && word(8) == p[2].y
            &&& word(9) == meta.white_point.x && word(10) == meta.white_point.y
            &&& word(11) == meta.max_display_mastering_luminance
            &&& word(12) == meta.min_display_mastering_luminance
            &&& word(13) == meta.max_cll
            &&& word(14) == meta.max_fall
        }),
{
}

/// A blob that was written is read back as the metadata that was written.
pub proof fn law_written_blob_is_read(
    meta: crate::metadata::HdrOutputMetadata,
    raw: HdrOutputMetadata,
    bytes: Vec<u8>,
    read: Option<crate::metadata::HdrOutputMetadata>,
    slice: &[u8],
)
    requires
        call_ensures(HdrOutputMetadata::new, (meta,), raw),
        call_ensures(HdrOutputMetadata::to_bytes, (&raw,), bytes),
        slice@ == bytes@,
        call_ensures(HdrOutputMetadata::parse, (slice,), read),
    ensures
        read is Some,
        read->0.eotf == meta.eotf,
        forall|k: int| 0 <= k < 3 ==> #[trigger] read->0.display_primaries@[k]
            == meta.display_primaries@[k],
        read->0.white_point == meta.white_point,
        read->0.max_display_mastering_luminance == meta.max_display_mastering_luminance,
        read->0.min_display_mastering_luminance == meta.min_display_mastering_luminance,
        read->0.max_cll == meta.max_cll,
        read->0.max_fall == meta.max_fall,
{
}

} // verus!
