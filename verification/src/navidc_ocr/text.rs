//! The text decoder: heads, caches and graphs.
use super::config::NaviDcConfig;
use crate::decoder_graph::{self, GraphSlots};
use crate::error::{self, Error, ErrorView};
use vstd::prelude::*;

verus! {

/// The most positions that a decoder graph is captured with.
pub const NAVIDC_DECODE_CACHE_LEN: usize = 16_384;

/// The widths of an attention layer.
#[derive(Debug, Clone, Copy, PartialEq, Eq, Structural)]
pub struct AttentionShape {
    pub head_dim: usize,
    pub query_dim: usize,
    pub key_dim: usize,
    /// The number of query heads that share a key head.
    pub groups: usize,
    /// The positions that a cache holds at most.
    pub cache_len: usize,
}

/// The positions that a cache holds at most.
pub open spec fn cache_limit(max_position_embeddings: usize) -> usize {
    if max_position_embeddings >= 8192 {
        max_position_embeddings
    } else {
        8192
    }
}

/// The widths of the attention layers, or the first thing wrong with them.
pub fn attention_shape(cfg: &NaviDcConfig) -> (r: Result<AttentionShape, Error>)
    requires
        cfg.num_key_value_heads > 0 || cfg.num_attention_heads > 0 || cfg.spec_head_dim() is Err,
        cfg.head_dim_is_defined(),
        cfg.heads_problem() is None ==> (cfg.spec_head_dim() matches Ok(d)
            ==> cfg.num_attention_heads * d <= usize::MAX && cfg.num_key_value_heads * d
            <= usize::MAX),
    ensures
        match r {
            Ok(shape) => {
                &&& cfg.heads_problem() is None
                &&& cfg.spec_head_dim() == Ok::<usize, ErrorView>(shape.head_dim)
                &&& shape.query_dim == cfg.num_attention_heads * shape.head_dim
                &&& shape.key_dim == cfg.num_key_value_heads * shape.head_dim
                &&& shape.groups == cfg.num_attention_heads / cfg.num_key_value_heads
                &&& shape.cache_len == cache_limit(cfg.max_position_embeddings)
            },
            Err(e) => if cfg.heads_problem() is Some {
                cfg.heads_problem() == Some(e@)
            } else {
                cfg.spec_head_dim() == Err::<usize, ErrorView>(e@)
            },
        },
{
    if let Err(e) = cfg.validate_heads() {
        return Err(e);
    }
    let head_dim: usize = match cfg.head_dim() {
        Ok(head_dim) => head_dim,
        Err(e) => return Err(e),
    };
    let cache_len: usize = if cfg.max_position_embeddings >= 8192 {
        cfg.max_position_embeddings
    } else {
        8192
    };
    Ok(
        AttentionShape {
            head_dim,
            query_dim: cfg.num_attention_heads * head_dim,
            key_dim: cfg.num_key_value_heads * head_dim,
            groups: cfg.num_attention_heads / cfg.num_key_value_heads,
            cache_len,
        },
    )
}

/// Checks the batch that a graph runs on.
pub fn validate_graph_batch(batch: usize) -> (r: Result<(), Error>)
    ensures
        error::verdict(
            if batch != 1 {
                Some(
                    ErrorView::Config(
                        "NaviDC-OCR CUDA-graph attention requires batch size 1"@,
                    ),
                )
            } else {
                None
            },
            r,
        ),
{
    if batch != 1 {
        return Err(Error::config("NaviDC-OCR CUDA-graph attention requires batch size 1"));
    }
    Ok(())
}

/// Gets the graph slots ready for a page. Hands back the number of positions that a
/// graph has to be captured with, where a new one is needed.
pub fn prepare_ar_cuda_graph(
    slots: &mut GraphSlots,
    disabled: bool,
    supported: bool,
    prompt_len: usize,
    max_new_tokens: usize,
) -> (capture: Option<usize>)
    ensures
        ({
            let required = decoder_graph::least(
                decoder_graph::sum_capped(prompt_len, max_new_tokens),
                16_384,
            );
            if disabled {
                capture is None && *final(slots) == GraphSlots::spec_empty()
            } else if !supported {
                capture is None && *final(slots) == *old(slots)
            } else {
                match decoder_graph::capacity(prompt_len, max_new_tokens, 16_384) {
                    None => capture is None && *final(slots) == GraphSlots::spec_empty(),
                    Some(cache_len) => if old(slots).decode matches Some(have) && have
                        >= required {
                        capture is None && *final(slots) == *old(slots)
                    } else {
                        capture == Some(cache_len) && *final(slots) == (GraphSlots {
                            decode: Some(cache_len),
                            verification: None,
                        })
                    },
                }
            }
        }),
{
    slots.prepare_ar(disabled, supported, prompt_len, max_new_tokens, NAVIDC_DECODE_CACHE_LEN)
}

/// The positions in use once one more token has been fed.
pub fn next_kv_len(kv_cache_len: usize) -> (n: usize)
    ensures
        n == decoder_graph::sum_capped(kv_cache_len, 1),
{
    if kv_cache_len == usize::MAX {
        usize::MAX
    } else {
        kv_cache_len + 1
    }
}

/// A cache holds all positions of the model, and 8192 of them at least.
pub proof fn law_cache_holds_all_positions(max_position_embeddings: usize)
    ensures
        cache_limit(max_position_embeddings) >= max_position_embeddings,
        cache_limit(max_position_embeddings) >= 8192,
        cache_limit(max_position_embeddings) == max_position_embeddings || cache_limit(
            max_position_embeddings,
        ) == 8192,
{
}

} // verus!
