//! Numbers of the Vulkan interface.

use vstd::prelude::*;

verus! {

// Image layouts.
pub const LAYOUT_UNDEFINED: i32 = 0;

pub const LAYOUT_GENERAL: i32 = 1;

pub const LAYOUT_COLOR_ATTACHMENT: i32 = 2;

pub const LAYOUT_SHADER_READ_ONLY: i32 = 5;

pub const LAYOUT_TRANSFER_SRC: i32 = 6;

pub const LAYOUT_TRANSFER_DST: i32 = 7;

pub const LAYOUT_DEPTH_ATTACHMENT: i32 = 1_000_241_000;

// Pipeline stages.
pub const STAGE_NONE: u64 = 0;

pub const STAGE_FRAGMENT_SHADER: u64 = 0x80;

pub const STAGE_EARLY_FRAGMENT_TESTS: u64 = 0x100;

pub const STAGE_LATE_FRAGMENT_TESTS: u64 = 0x200;

pub const STAGE_COLOR_ATTACHMENT_OUTPUT: u64 = 0x400;

pub const STAGE_COMPUTE_SHADER: u64 = 0x800;

pub const STAGE_ALL_TRANSFER: u64 = 0x1000;

pub const STAGE_HOST: u64 = 0x4000;

pub const STAGE_ALL_COMMANDS: u64 = 0x1_0000;

// Kinds of access.
pub const ACCESS_NONE: u64 = 0;

pub const ACCESS_COLOR_ATTACHMENT_READ: u64 = 0x80;

pub const ACCESS_COLOR_ATTACHMENT_WRITE: u64 = 0x100;

pub const ACCESS_DEPTH_STENCIL_READ: u64 = 0x200;

pub const ACCESS_DEPTH_STENCIL_WRITE: u64 = 0x400;

pub const ACCESS_TRANSFER_READ: u64 = 0x800;

pub const ACCESS_TRANSFER_WRITE: u64 = 0x1000;

pub const ACCESS_HOST_WRITE: u64 = 0x4000;

pub const ACCESS_MEMORY_READ: u64 = 0x8000;

pub const ACCESS_MEMORY_WRITE: u64 = 0x1_0000;

pub const ACCESS_SHADER_SAMPLED_READ: u64 = 0x1_0000_0000;

pub const ACCESS_SHADER_STORAGE_WRITE: u64 = 0x4_0000_0000;

// Queue families.
pub const QUEUE_FAMILY_IGNORED: u32 = 0xffff_ffff;

pub const QUEUE_FAMILY_EXTERNAL: u32 = 0xffff_fffe;

pub const QUEUE_FAMILY_FOREIGN: u32 = 0xffff_fffd;

// Image usages.
pub const USAGE_TRANSFER_SRC: u32 = 0x1;

pub const USAGE_TRANSFER_DST: u32 = 0x2;

pub const USAGE_SAMPLED: u32 = 0x4;

pub const USAGE_STORAGE: u32 = 0x8;

pub const USAGE_COLOR_ATTACHMENT: u32 = 0x10;

pub const USAGE_DEPTH_STENCIL_ATTACHMENT: u32 = 0x20;

pub const USAGE_HOST_TRANSFER: u32 = 0x40_0000;

// Formats.
pub const FORMAT_UNDEFINED: i32 = 0;

pub const FORMAT_R8G8B8A8_UNORM: i32 = 37;

pub const FORMAT_R8G8B8A8_SRGB: i32 = 43;

pub const FORMAT_B8G8R8A8_UNORM: i32 = 44;

pub const FORMAT_B8G8R8A8_SRGB: i32 = 50;

pub const FORMAT_A2R10G10B10_UNORM: i32 = 58;

pub const FORMAT_A2B10G10R10_UNORM: i32 = 64;

pub const FORMAT_R16G16B16A16_UNORM: i32 = 91;

pub const FORMAT_R16G16B16A16_SFLOAT: i32 = 97;

pub const FORMAT_D16_UNORM: i32 = 124;

pub const FORMAT_D32_SFLOAT: i32 = 126;

pub const FORMAT_D24_UNORM_S8_UINT: i32 = 129;

// Image tilings.
pub const TILING_OPTIMAL: i32 = 0;

pub const TILING_LINEAR: i32 = 1;

pub const TILING_DRM_FORMAT_MODIFIER: i32 = 1_000_158_000;

// Results.
pub const ERROR_OUT_OF_DEVICE_MEMORY: i32 = -2;

pub const ERROR_DEVICE_LOST: i32 = -4;

pub const ERROR_MEMORY_MAP_FAILED: i32 = -5;

/// Formats with more than eight bits per color channel.
pub open spec fn is_hdr_format(format: i32) -> bool {
    format == FORMAT_A2B10G10R10_UNORM || format == FORMAT_A2R10G10B10_UNORM || format
        == FORMAT_R16G16B16A16_SFLOAT || format == FORMAT_R16G16B16A16_UNORM
}

/// See [`is_hdr_format`].
pub fn is_hdr_vk_format(format: i32) -> (r: bool)
    ensures
        r == is_hdr_format(format),
{
    format == FORMAT_A2B10G10R10_UNORM || format == FORMAT_A2R10G10B10_UNORM || format
        == FORMAT_R16G16B16A16_SFLOAT || format == FORMAT_R16G16B16A16_UNORM
}

/// Whether all bits of `wanted` are set.
pub open spec fn has_bits(flags: u32, wanted: u32) -> bool {
    flags & wanted == wanted
}

} // verus!
