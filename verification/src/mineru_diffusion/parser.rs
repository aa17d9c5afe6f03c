//! Options for parsing a page: its layout first, then its regions.
use crate::float::Float;
use crate::mineru::parser::FIFTY_BITS;
use vstd::prelude::*;

verus! {

/// How a page is generated, and which regions are too small or too narrow.
#[derive(Debug, Clone)]
pub struct MinerUDiffusionParseOptions<G> {
    pub generation: G,
    pub min_image_edge: u32,
    pub max_image_edge_ratio: Float,
}

impl<G> MinerUDiffusionParseOptions<G> {
    /// The usual bounds of regions.
    pub fn new(generation: G) -> (o: Self)
        ensures
            o.generation == generation,
            o.min_image_edge == 28,
            o.max_image_edge_ratio.bits == FIFTY_BITS,
            o.max_image_edge_ratio.text@ == "50"@,
    {
        MinerUDiffusionParseOptions {
            generation,
            min_image_edge: 28,
            max_image_edge_ratio: Float { bits: FIFTY_BITS, text: "50".to_owned() },
        }
    }
}

} // verus!
