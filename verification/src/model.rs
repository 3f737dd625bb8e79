//! The signal statistics of one k-mer.

use crate::binary32::Binary32;
use crate::event::Event;
use vstd::prelude::*;

verus! {

/// The length of every generated event.
pub const LENGTH: u32 = 3;

/// The start that a model gives its own event.
pub const START_TIME: u32 = 0;

/// The signal statistics of one k-mer: mean and deviation of the current
/// level, mean and deviation of its noise.
#[derive(Clone, Copy, Debug, PartialEq, Eq, Structural)]
pub struct SignalModel {
    pub level_mean: Binary32,
    pub level_stdv: Binary32,
    pub sd_mean: Binary32,
    pub sd_stdv: Binary32,
}

impl SignalModel {
    /// The model with the given statistics.
    pub fn new(level_mean: Binary32, level_stdv: Binary32, sd_mean: Binary32, sd_stdv: Binary32) -> (m:
        SignalModel)
        ensures
            m == (SignalModel { level_mean, level_stdv, sd_mean, sd_stdv }),
    {
        SignalModel { level_mean, level_stdv, sd_mean, sd_stdv }
    }

    /// The event of this model: it starts at `START_TIME`, lasts `LENGTH`, and
    /// carries the model's level mean and noise mean themselves.
    pub fn generate(&self) -> (event: Event)
        ensures
            event == (START_TIME, LENGTH, self.level_mean, self.sd_mean),
    {
        (START_TIME, LENGTH, self.level_mean, self.sd_mean)
    }

    /// The mean of the level.
    pub fn getmean(&self) -> (mean: Binary32)
        ensures
            mean == self.level_mean,
    {
        self.level_mean
    }
}

} // verus!
