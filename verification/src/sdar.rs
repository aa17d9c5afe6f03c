//! The SDAR text decoder that several models share.
use crate::error::{Error, Message};
use vstd::prelude::*;

verus! {

/// Dimensions of an SDAR decoder.
#[derive(Debug, Clone)]
pub struct SdarConfig {
    pub vocab_size: usize,
    pub hidden_size: usize,
    pub intermediate_size: usize,
    pub num_hidden_layers: usize,
    pub num_attention_heads: usize,
    pub num_key_value_heads: usize,
    pub max_position_embeddings: usize,
    /// The configured size of one head; it need not be the even share.
    pub head_dim: Option<usize>,
    pub attention_bias: bool,
    /// The name of the activation.
    pub hidden_act: String,
    pub eos_token_id: Option<u32>,
    pub pad_token_id: Option<u32>,
}

impl SdarConfig {
    /// The size of one head: the configured one, else the even share of the
    /// hidden size.
    pub open spec fn spec_head_dim(self) -> Option<usize> {
        if self.head_dim is Some {
            self.head_dim
        } else if self.num_attention_heads > 0 && self.hidden_size % self.num_attention_heads == 0 {
            Some((self.hidden_size / self.num_attention_heads) as usize)
        } else {
            None
        }
    }

    /// The size of one head; a hidden size that cannot be shared evenly is an error of
    /// the configuration.
    pub fn head_dim(&self) -> (r: Result<usize, Error>)
        ensures
            match r {
                Ok(d) => self.spec_head_dim() == Some(d),
                Err(e) => self.spec_head_dim() is None && e@ is Config,
            },
    {
        if let Some(head_dim) = self.head_dim {
            return Ok(head_dim);
        }
        if self.num_attention_heads > 0 && self.hidden_size % self.num_attention_heads == 0 {
            Ok(self.hidden_size / self.num_attention_heads)
        } else {
            Err(
                Message::new("SDAR hidden_size ").num(self.hidden_size as u64).text(
                    " is not divisible by num_attention_heads ",
                ).num(self.num_attention_heads as u64).config(),
            )
        }
    }
}

/// A configured head size is used as it is; else the heads share the hidden size
/// evenly, or there is none.
pub proof fn law_heads_share_the_hidden_size(cfg: SdarConfig)
    requires
        cfg.num_attention_heads > 0,
    ensures
        cfg.head_dim is Some ==> cfg.spec_head_dim() == cfg.head_dim,
        cfg.head_dim is None ==> match cfg.spec_head_dim() {
            Some(d) => d * cfg.num_attention_heads == cfg.hidden_size,
            None => cfg.hidden_size % cfg.num_attention_heads != 0,
        },
{
    let q = cfg.hidden_size as int / cfg.num_attention_heads as int;
    vstd::arithmetic::div_mod::lemma_fundamental_div_mod(
        cfg.hidden_size as int,
        cfg.num_attention_heads as int,
    );
    assert(cfg.num_attention_heads as int * q == q * cfg.num_attention_heads as int)
        by (nonlinear_arith);
}

} // verus!
