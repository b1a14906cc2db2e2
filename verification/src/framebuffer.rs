use vstd::prelude::*;

verus! {

/// Order in which the three color channels of a pixel lie in memory.
#[derive(Clone, Copy, Debug, PartialEq, Eq, PartialOrd, Ord, Structural)]
pub enum PixelFormat {
    Rgb,
    Bgr,
}

/// Describes a linear framebuffer: four bytes per pixel, `stride` pixels per
/// row of memory, of which the first `resolution.0` are visible, and
/// `resolution.1` rows. The value is copied across the handoff to the kernel.
#[derive(Clone, Copy, Debug, PartialEq, Eq, PartialOrd, Ord)]
pub struct FrameBuffer {
    /// Physical address of the first byte.
    pub framebuffer: u64,
    /// Pixels per row of memory; at least the width.
    pub stride: u32,
    /// Width and height in pixels.
    pub resolution: (u32, u32),
    /// Channel order of every pixel.
    pub format: PixelFormat,
}

impl FrameBuffer {
    /// Number of bytes the framebuffer occupies.
    pub open spec fn byte_len(self) -> int {
        self.stride * self.resolution.1 * 4
    }

    /// Number of bytes the framebuffer occupies, `stride * height * 4`, or
    /// `None` where that is more than the machine can address.
    pub fn size_in_bytes(&self) -> (len: Option<usize>)
        ensures
            len == if self.byte_len() <= usize::MAX {
                Some(self.byte_len() as usize)
            } else {
                None
            },
    {
        let stride: u128 = self.stride as u128;
        let height: u128 = self.resolution.1 as u128;
        assert(stride * height <= 0xffff_ffff * 0xffff_ffff) by (nonlinear_arith)
            requires
                stride <= 0xffff_ffff,
                height <= 0xffff_ffff,
        ;
        let total: u128 = stride * height * 4;
        if total <= usize::MAX as u128 {
            Some(total as usize)
        } else {
            None
        }
    }
}

} // verus!
