//! Per-frame render state: the progressive-accumulation controller and
//! the frame descriptor the GPU pass reads.

use vstd::prelude::*;

verus! {

/// Sampling state of the progressive accumulator, uploaded to the GPU
/// as a uniform buffer once per frame.
#[derive(Clone, Copy, Debug, PartialEq, Eq, Structural)]
pub struct RenderParam {
    pub samples_max_per_pixel: u32,
    pub samples_per_pixel: u32,
    pub total_samples: u32,
    pub clear_samples: u32,
    pub max_depth: u32,
}

impl RenderParam {
    /// Advances the accumulator by one rendered frame.
    ///
    /// Three states, keyed on `total_samples`:
    /// - `0`: the accumulated image is invalid; take `samples_per_pixel`
    ///   new samples and raise `clear_samples` so the GPU pass discards
    ///   the old image instead of blending;
    /// - `1 ..= samples_max_per_pixel`: keep accumulating, blending
    ///   (`clear_samples` low);
    /// - above `samples_max_per_pixel`: converged.  `samples_per_pixel`
    ///   drops to zero and nothing changes until a caller resets
    ///   `total_samples`.  The zeroed rate makes the converged state
    ///   sticky: a caller that clears only `total_samples` accumulates
    ///   nothing from then on (see [`RenderParam::reset_accumulation`]).
    pub fn update(&mut self)
        requires
            old(self).total_samples <= old(self).samples_max_per_pixel ==> old(
                self,
            ).total_samples + old(self).samples_per_pixel <= u32::MAX,
        ensures
            final(self).samples_max_per_pixel == old(self).samples_max_per_pixel,
            final(self).max_depth == old(self).max_depth,
            old(self).total_samples == 0 ==> *final(self) == (RenderParam {
                total_samples: old(self).samples_per_pixel,
                clear_samples: 1,
                ..*old(self)
            }),
            0 < old(self).total_samples <= old(self).samples_max_per_pixel ==> *final(self)
                == (RenderParam {
                total_samples: (old(self).total_samples + old(self).samples_per_pixel) as u32,
                clear_samples: 0,
                ..*old(self)
            }),
            old(self).total_samples > old(self).samples_max_per_pixel ==> *final(self)
                == (RenderParam { samples_per_pixel: 0, clear_samples: 0, ..*old(self) }),
    {
        if self.total_samples == 0 {
            self.total_samples = self.total_samples + self.samples_per_pixel;
            self.clear_samples = 1;
        } else if self.total_samples <= self.samples_max_per_pixel {
            self.total_samples = self.total_samples + self.samples_per_pixel;
            self.clear_samples = 0;
        } else {
            self.samples_per_pixel = 0;
            self.clear_samples = 0;
        }
    }

    /// What the frame loop applies when it detects that the scene
    /// changed since the last rendered frame: accumulation restarts
    /// from zero and the sampling rate is restored to the given value,
    /// since a converged accumulator has zeroed its own
    /// `samples_per_pixel` and would otherwise stay stuck.
    pub fn reset_accumulation(&mut self, samples_per_pixel: u32)
        ensures
            *final(self) == (RenderParam {
                total_samples: 0,
                samples_per_pixel,
                ..*old(self)
            }),
    {
        self.total_samples = 0;
        self.samples_per_pixel = samples_per_pixel;
    }
}

/// Viewport size and running frame index, uploaded beside
/// [`RenderParam`] every frame.
#[derive(Clone, Copy, Debug)]
pub struct FrameData {
    pub width: u32,
    pub height: u32,
    pub index: u32,
}

impl PartialEq for FrameData {
    /// Frames compare by viewport size alone: the running `index`
    /// advances every frame and must not count as a scene change.
    fn eq(&self, other: &Self) -> (r: bool)
        ensures
            r == (self.width == other.width && self.height == other.height),
    {
        self.width == other.width && self.height == other.height
    }
}

impl vstd::std_specs::cmp::PartialEqSpecImpl for FrameData {
    open spec fn obeys_eq_spec() -> bool {
        true
    }

    open spec fn eq_spec(&self, other: &Self) -> bool {
        self.width == other.width && self.height == other.height
    }
}

} // verus!
