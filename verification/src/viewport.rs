//! Per-process render state: feature flags and the progressive sample
//! counter.
use vstd::prelude::*;

verus! {

/// Render state read by every frame: overlay and distance-pass flags, and
/// the sample counter that divides the accumulated radiance at resolve
/// time.
pub struct Viewport {
    pub overlays_enabled: bool,
    pub distance_pass: bool,
    pub sample_iter: u32,
}

impl Viewport {
    /// Fresh state: no samples accumulated yet.
    pub fn new(overlays_enabled: bool, distance_pass: bool) -> (v: Viewport)
        ensures
            v.overlays_enabled == overlays_enabled,
            v.distance_pass == distance_pass,
            v.sample_iter == 0,
    {
        Viewport { overlays_enabled, distance_pass, sample_iter: 0 }
    }

    /// Counts one finished accumulation pass. The counter only ever grows,
    /// and from the first frame on it is strictly positive, so dividing by
    /// it at resolve time is safe.
    pub fn next_sample(&mut self)
        requires
            old(self).sample_iter < 0xffff_ffff,
        ensures
            final(self).sample_iter == old(self).sample_iter + 1,
            final(self).sample_iter >= 1,
            final(self).overlays_enabled == old(self).overlays_enabled,
            final(self).distance_pass == old(self).distance_pass,
    {
        self.sample_iter = self.sample_iter + 1;
    }

    /// Forgets every accumulated sample, as when the camera moves and stale
    /// radiance would smear the image; the caller clears the radiance buffer
    /// beside it.
    pub fn reset_samples(&mut self)
        ensures
            final(self).sample_iter == 0,
            final(self).overlays_enabled == old(self).overlays_enabled,
            final(self).distance_pass == old(self).distance_pass,
    {
        self.sample_iter = 0;
    }
}

} // verus!
