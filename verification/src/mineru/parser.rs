//! Options for parsing a page: its layout first, then its regions.
use crate::float::Float;
use vstd::prelude::*;

verus! {

/// Limits and sizes for parsing a page.
#[derive(Debug, Clone)]
pub struct MinerUParseOptions {
    pub max_tokens: usize,
    pub region_batch_size: usize,
    pub min_image_edge: u32,
    pub max_image_edge_ratio: Float,
}

/// The bits of the double 50.
pub const FIFTY_BITS: u64 = 0x4049_0000_0000_0000;

impl Default for MinerUParseOptions {
    fn default() -> (o: Self)
        ensures
            o.max_tokens == 16_384,
            o.region_batch_size == 2,
            o.min_image_edge == 28,
            o.max_image_edge_ratio.bits == FIFTY_BITS,
            o.max_image_edge_ratio.text@ == "50"@,
    {
        MinerUParseOptions {
            max_tokens: 16_384,
            region_batch_size: 2,
            min_image_edge: 28,
            max_image_edge_ratio: Float { bits: FIFTY_BITS, text: "50".to_owned() },
        }
    }
}

} // verus!
