use vstd::prelude::*;

verus! {

/// The only external input world generation needs: a seed, the dimensions,
/// and how many robots the driver will run.
#[derive(Debug)]
pub struct Config {
    pub seed: u64,
    pub map_width: usize,
    pub map_height: usize,
    pub robots_count: usize,
}

} // verus!
