//! Decision logic of an HDR capable display backend.

pub mod atomic;
pub mod barrier;
pub mod blit;
pub mod color;
pub mod color32;
pub mod colorop;
pub mod description;
pub mod descriptor;
pub mod device;
pub mod ffi;
pub mod formats;
pub mod frame;
pub mod geometry;
pub mod gles;
pub mod hdr;
pub mod idset;
pub mod image;
pub mod imports;
pub mod indirect;
pub mod live;
pub mod lut3d;
pub mod memory;
pub mod metadata;
pub mod names;
pub mod nearest;
pub mod pipelines;
pub mod plan;
pub mod readback;
pub mod renderer;
pub mod request;
pub mod resolved;
pub mod scanout;
pub mod scissors;
pub mod softfloat;
pub mod suballoc;
pub mod surface;
pub mod sync;
pub mod transfer;
pub mod vk;
pub mod words;
