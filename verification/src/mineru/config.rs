//! Configuration of a checkpoint.
use crate::error::{self, Error, ErrorView, Message};
use crate::numbers;
use crate::text;
use vstd::prelude::*;

verus! {

/// The name of the activation of a checkpoint that does not say.
pub fn default_text_hidden_act() -> (s: String)
    ensures
        s@ == "silu"@,
{
    "silu".to_owned()
}

/// How rotary positions are shared out to axes.
#[derive(Debug, Clone)]
pub struct MinerURopeScaling {
    /// The kind of scaling.
    pub kind: Option<String>,
    pub mrope_section: Vec<usize>,
}

impl Default for MinerURopeScaling {
    fn default() -> (r: Self)
        ensures
            r.kind is None,
            r.mrope_section@.len() == 0,
    {
        MinerURopeScaling { kind: None, mrope_section: Vec::new() }
    }
}

/// Settings that newer checkpoints nest.
#[derive(Debug, Clone, Copy, PartialEq, Eq, Structural)]
pub struct MinerUTextConfig {
    pub tie_word_embeddings: bool,
}

impl Default for MinerUTextConfig {
    fn default() -> (c: Self)
        ensures
            !c.tie_word_embeddings,
    {
        MinerUTextConfig { tie_word_embeddings: false }
    }
}

/// The vision tower.
#[derive(Debug, Clone, Copy, PartialEq, Eq, Structural)]
pub struct MinerUVisionConfig {
    pub patch_size: usize,
    pub spatial_merge_size: usize,
    pub temporal_patch_size: usize,
}

/// The whole model.
#[derive(Debug, Clone)]
pub struct MinerUConfig {
    pub vocab_size: usize,
    pub hidden_size: usize,
    pub intermediate_size: usize,
    pub num_hidden_layers: usize,
    pub num_attention_heads: usize,
    pub num_key_value_heads: usize,
    pub max_position_embeddings: usize,
    pub sliding_window: Option<usize>,
    pub max_window_layers: usize,
    pub use_sliding_window: bool,
    pub hidden_act: String,
    pub tie_word_embeddings: bool,
    pub bos_token_id: u32,
    pub eos_token_id: u32,
    pub pad_token_id: Option<u32>,
    pub vision_start_token_id: u32,
    pub vision_end_token_id: u32,
    pub vision_token_id: u32,
    pub image_token_id: u32,
    pub video_token_id: u32,
    pub rope_scaling: MinerURopeScaling,
    pub vision_config: MinerUVisionConfig,
    pub text_config: MinerUTextConfig,
}

impl MinerUConfig {
    /// Whether the output weights are the token embeddings; either level may say so.
    pub fn tie_word_embeddings(&self) -> (r: bool)
        ensures
            r == (self.tie_word_embeddings || self.text_config.tie_word_embeddings),
    {
        self.tie_word_embeddings || self.text_config.tie_word_embeddings
    }

    /// The size of one head.
    pub open spec fn spec_head_dim(self) -> Result<usize, ErrorView> {
        if !numbers::multiple(self.hidden_size, self.num_attention_heads) {
            Err(
                ErrorView::Config(
                    "MinerU2.5: hidden_size "@ + text::dec(self.hidden_size as nat)
                        + " not divisible by num_attention_heads "@ + text::dec(
                        self.num_attention_heads as nat,
                    ),
                ),
            )
        } else {
            Ok((self.hidden_size / self.num_attention_heads) as usize)
        }
    }

    /// The size of one head: the even share of the hidden size.
    pub fn head_dim(&self) -> (r: Result<usize, Error>)
        requires
            self.num_attention_heads > 0 || self.hidden_size > 0,
        ensures
            error::tells(r, self.spec_head_dim()),
    {
        if !numbers::is_multiple(self.hidden_size, self.num_attention_heads) {
            return Err(
                Message::new("MinerU2.5: hidden_size ").num(self.hidden_size as u64).text(
                    " not divisible by num_attention_heads ",
                ).num(self.num_attention_heads as u64).config(),
            );
        }
        Ok(self.hidden_size / self.num_attention_heads)
    }
}

/// The heads share the hidden size evenly, or there is an error.
pub proof fn law_heads_share_the_hidden_size(cfg: MinerUConfig)
    requires
        cfg.num_attention_heads > 0,
    ensures
        match cfg.spec_head_dim() {
            Ok(d) => d * cfg.num_attention_heads == cfg.hidden_size,
            Err(_) => cfg.hidden_size % cfg.num_attention_heads != 0,
        },
{
    let q = cfg.hidden_size as int / cfg.num_attention_heads as int;
    vstd::arithmetic::div_mod::lemma_fundamental_div_mod(
        cfg.hidden_size as int,
        cfg.num_attention_heads as int,
    );
    assert(cfg.num_attention_heads as int * q == q * cfg.num_attention_heads as int)
        by (nonlinear_arith);
}

} // verus!
