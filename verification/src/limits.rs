//! The bounded resource envelope every decode path is held to.

use vstd::prelude::*;

use crate::error::VoleError;

verus! {

/// Hard bounds applied to hostile input before any allocation or loop.
#[derive(Debug, Clone, Copy, PartialEq, Eq)]
pub struct Limits {
    /// Largest canvas width in samples.
    pub max_width: u32,
    /// Largest canvas height in samples.
    pub max_height: u32,
    /// Largest canvas byte count.
    pub max_canvas_bytes: u64,
    /// Largest object raster byte count.
    pub max_object_bytes: u64,
    /// Largest declared object count.
    pub max_objects: u32,
    /// Largest live instance count.
    pub max_instances: u32,
    /// Largest persistent overlay point count.
    pub max_overlay_points: u32,
    /// Largest residual payload byte count.
    pub max_residual_bytes: u64,
    /// Largest trajectory program length.
    pub max_trajectory_segments: u32,
    /// Largest number of frames in one stream.
    pub max_frames: u64,
    /// Largest container byte count accepted by a parser.
    pub max_stream_bytes: u64,
    /// Largest number of interval groups after one checkpoint.
    pub max_checkpoint_distance: u64,
    /// Largest number of transitions (and overlay patch points) in one
    /// interval group.
    pub max_transitions_per_interval: u32,
    /// Largest `COPY_RECT` area in samples.
    pub max_copy_area: u64,
}

impl Limits {
    /// Whether a `width x height` canvas is inside the envelope: both sides
    /// nonzero and within the per-axis bounds, and the sample count within
    /// the byte bound.
    pub open spec fn canvas_ok(&self, width: u32, height: u32) -> bool {
        &&& width > 0
        &&& height > 0
        &&& width <= self.max_width
        &&& height <= self.max_height
        &&& width * height <= self.max_canvas_bytes
    }

    /// Check a canvas geometry against the envelope.
    pub fn check_canvas(&self, width: u32, height: u32) -> (r: Result<(), VoleError>)
        ensures
            r is Ok <==> self.canvas_ok(width, height),
            r matches Err(e) ==> e == VoleError::DimensionTooLarge,
    {
        if width == 0 || height == 0 || width > self.max_width || height > self.max_height {
            return Err(VoleError::DimensionTooLarge);
        }
        proof {
            vstd::arithmetic::mul::lemma_mul_upper_bound(
                width as int,
                0xffff_ffff,
                height as int,
                0xffff_ffff,
            );
        }
        let n = (width as u64) * (height as u64);
        if n > self.max_canvas_bytes {
            return Err(VoleError::DimensionTooLarge);
        }
        Ok(())
    }
}

impl Default for Limits {
    fn default() -> (r: Self)
        ensures
            r.max_width == 16384,
            r.max_height == 16384,
            r.max_canvas_bytes == 1u64 << 28u64,
            r.max_object_bytes == 1u64 << 26u64,
            r.max_objects == 65536,
            r.max_instances == 65536,
            r.max_overlay_points == 1u32 << 20u32,
            r.max_residual_bytes == 1u64 << 28u64,
            r.max_trajectory_segments == 256,
            r.max_frames == 1u64 << 24u64,
            r.max_stream_bytes == 0x1_0000_0000u64,
            r.max_checkpoint_distance == 1u64 << 24u64,
            r.max_transitions_per_interval == 1u32 << 20u32,
            r.max_copy_area == 1u64 << 28u64,
    {
        Limits {
            max_width: 16384,
            max_height: 16384,
            max_canvas_bytes: 1u64 << 28u64,
            max_object_bytes: 1u64 << 26u64,
            max_objects: 65536,
            max_instances: 65536,
            max_overlay_points: 1u32 << 20u32,
            max_residual_bytes: 1u64 << 28u64,
            max_trajectory_segments: 256,
            max_frames: 1u64 << 24u64,
            max_stream_bytes: 0x1_0000_0000u64,
            max_checkpoint_distance: 1u64 << 24u64,
            max_transitions_per_interval: 1u32 << 20u32,
            max_copy_area: 1u64 << 28u64,
        }
    }
}

} // verus!
