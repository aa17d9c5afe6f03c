//! Configuration of a checkpoint.
use crate::error::{self, Error, ErrorView, Message};
use crate::numbers;
use crate::text;
use vstd::prelude::*;

verus! {

/// The name of the activation of a checkpoint that does not say.
pub fn default_text_hidden_act() -> (s: String)
    ensures
        s@ == "silu"@,
{
    "silu".to_owned()
}

/// How rotary positions are shared out to axes.
#[derive(Debug, Clone)]
pub struct NaviDcRopeScaling {
    pub mrope_section: Vec<usize>,
}

impl Default for NaviDcRopeScaling {
    fn default() -> (r: Self)
        ensures
            r.mrope_section@.len() == 0,
    {
        NaviDcRopeScaling { mrope_section: Vec::new() }
    }
}

/// Settings that newer checkpoints nest.
#[derive(Debug, Clone)]
pub struct NaviDcTextConfig {
    pub head_dim: Option<usize>,
    pub tie_word_embeddings: bool,
    pub pad_token_id: Option<u32>,
    pub eos_token_id: Option<u32>,
    pub layer_types: Vec<String>,
}

impl Default for NaviDcTextConfig {
    fn default() -> (r: Self)
        ensures
            r.head_dim is None,
            !r.tie_word_embeddings,
            r.pad_token_id is None,
            r.eos_token_id is None,
            r.layer_types@.len() == 0,
    {
        NaviDcTextConfig {
            head_dim: None,
            tie_word_embeddings: false,
            pad_token_id: None,
            eos_token_id: None,
            layer_types: Vec::new(),
        }
    }
}

/// The vision tower with windowed attention.
#[derive(Debug, Clone)]
pub struct NaviDcVisionConfig {
    pub depth: usize,
    /// The blocks that attend to the whole image.
    pub fullatt_block_indexes: Vec<usize>,
    pub hidden_size: usize,
    pub num_heads: usize,
    pub in_chans: Option<usize>,
    pub in_channels: Option<usize>,
    pub patch_size: usize,
    pub spatial_merge_size: usize,
    pub temporal_patch_size: usize,
    pub window_size: usize,
}

impl NaviDcVisionConfig {
    /// The number of channels, under either of its names; three where neither is
    /// given.
    pub fn in_channels(&self) -> (n: usize)
        ensures
            n == match (self.in_channels, self.in_chans) {
                (Some(n), _) => n,
                (None, Some(n)) => n,
                (None, None) => 3,
            },
    {
        match self.in_channels {
            Some(n) => n,
            None => match self.in_chans {
                Some(n) => n,
                None => 3,
            },
        }
    }

    /// The size of one head.
    pub open spec fn spec_head_dim(self) -> Result<usize, ErrorView> {
        if self.num_heads == 0 || self.hidden_size % self.num_heads != 0 {
            Err(
                ErrorView::Config(
                    "NaviDC-OCR: vision hidden_size "@ + text::dec(self.hidden_size as nat)
                        + " not divisible by num_heads "@ + text::dec(self.num_heads as nat),
                ),
            )
        } else {
            Ok((self.hidden_size / self.num_heads) as usize)
        }
    }

    /// The size of one head.
    pub fn head_dim(&self) -> (r: Result<usize, Error>)
        ensures
            error::tells(r, self.spec_head_dim()),
    {
        if self.num_heads == 0 || self.hidden_size % self.num_heads != 0 {
            return Err(
                Message::new("NaviDC-OCR: vision hidden_size ").num(
                    self.hidden_size as u64,
                ).text(" not divisible by num_heads ").num(self.num_heads as u64).config(),
            );
        }
        Ok(self.hidden_size / self.num_heads)
    }

    /// The first block index from `from` on that lies behind the last block.
    pub open spec fn stray_index(self, from: int) -> Option<usize>
        decreases self.fullatt_block_indexes@.len() - from,
    {
        if from < 0 || from >= self.fullatt_block_indexes@.len() {
            None
        } else if self.fullatt_block_indexes@[from] >= self.depth {
            Some(self.fullatt_block_indexes@[from])
        } else {
            self.stray_index(from + 1)
        }
    }

    /// The first thing wrong with the blocks and windows.
    pub open spec fn problem(self) -> Option<ErrorView> {
        let tokens = self.spatial_merge_size * self.patch_size;
        if self.spec_head_dim() is Err {
            Some(self.spec_head_dim()->Err_0)
        } else if let Some(index) = self.stray_index(0) {
            Some(
                ErrorView::Config(
                    "NaviDC-OCR: fullatt_block_indexes entry "@ + text::dec(index as nat)
                        + " >= vision depth "@ + text::dec(self.depth as nat),
                ),
            )
        } else if tokens > usize::MAX {
            Some(
                ErrorView::Config(
                    "NaviDC-OCR: vision spatial_merge_size * patch_size overflow"@,
                ),
            )
        } else if tokens == 0 || self.window_size as int % tokens != 0 {
            Some(
                ErrorView::Config(
                    "NaviDC-OCR: window_size ("@ + text::dec(self.window_size as nat)
                        + ") must be a multiple of spatial_merge_size * patch_size ("@
                        + text::dec(tokens as nat) + ")"@,
                ),
            )
        } else {
            None
        }
    }

    /// Checks the blocks and windows.
    pub fn validate(&self) -> (r: Result<(), Error>)
        ensures
            error::verdict(self.problem(), r),
    {
        if let Err(e) = self.head_dim() {
            return Err(e);
        }
        let mut i: usize = 0;
        while i < self.fullatt_block_indexes.len()
            invariant
                i <= self.fullatt_block_indexes.len(),
                self.spec_head_dim() is Ok,
                self.stray_index(0) == self.stray_index(i as int),
            decreases self.fullatt_block_indexes.len() - i,
        {
            let index: usize = self.fullatt_block_indexes[i];
            if index >= self.depth {
                return Err(
                    Message::new("NaviDC-OCR: fullatt_block_indexes entry ").num(
                        index as u64,
                    ).text(" >= vision depth ").num(self.depth as u64).config(),
                );
            }
            i = i + 1;
        }
        let tokens: usize = match self.spatial_merge_size.checked_mul(self.patch_size) {
            Some(tokens) => tokens,
            None => return Err(
                Error::config("NaviDC-OCR: vision spatial_merge_size * patch_size overflow"),
            ),
        };
        if tokens == 0 || self.window_size % tokens != 0 {
            return Err(
                Message::new("NaviDC-OCR: window_size (").num(self.window_size as u64).text(
                    ") must be a multiple of spatial_merge_size * patch_size (",
                ).num(tokens as u64).text(")").config(),
            );
        }
        Ok(())
    }
}

/// The whole model.
#[derive(Debug, Clone)]
pub struct NaviDcConfig {
    pub vocab_size: usize,
    pub hidden_size: usize,
    pub intermediate_size: usize,
    pub num_hidden_layers: usize,
    pub num_attention_heads: usize,
    pub num_key_value_heads: usize,
    pub max_position_embeddings: usize,
    pub head_dim: Option<usize>,
    pub hidden_act: String,
    pub tie_word_embeddings: bool,
    pub bos_token_id: u32,
    pub eos_token_id: u32,
    pub pad_token_id: Option<u32>,
    pub vision_start_token_id: u32,
    pub vision_end_token_id: u32,
    pub vision_token_id: u32,
    pub image_token_id: u32,
    pub video_token_id: u32,
    pub rope_scaling: NaviDcRopeScaling,
    pub vision_config: NaviDcVisionConfig,
    pub text_config: NaviDcTextConfig,
}

/// Some layer of a list is of the sliding kind.
pub open spec fn some_sliding(kinds: Seq<String>) -> bool {
    exists|i: int| 0 <= i < kinds.len() && (#[trigger] kinds[i])@ == "sliding_attention"@
}

/// Decides [`some_sliding`].
fn has_sliding(kinds: &Vec<String>) -> (r: bool)
    ensures
        r == some_sliding(kinds@),
{
    let mut i: usize = 0;
    while i < kinds.len()
        invariant
            i <= kinds.len(),
            forall|j: int| 0 <= j < i ==> (#[trigger] kinds@[j])@ != "sliding_attention"@,
        decreases kinds.len() - i,
    {
        if text::same(kinds[i].as_str(), "sliding_attention") {
            proof {
                assert(kinds@[i as int]@ == "sliding_attention"@);
            }
            return true;
        }
        i = i + 1;
    }
    false
}

impl NaviDcConfig {
    /// The size of one head can be told: it is configured, or there are heads to
    /// share the hidden size.
    pub open spec fn head_dim_is_defined(self) -> bool {
        ||| self.head_dim is Some
        ||| self.text_config.head_dim is Some
        ||| self.num_attention_heads > 0
        ||| self.hidden_size > 0
    }

    /// The size of one head: the configured one, else the even share of the hidden
    /// size.
    pub open spec fn spec_head_dim(self) -> Result<usize, ErrorView> {
        if self.head_dim is Some {
            Ok(self.head_dim->Some_0)
        } else if self.text_config.head_dim is Some {
            Ok(self.text_config.head_dim->Some_0)
        } else if !numbers::multiple(self.hidden_size, self.num_attention_heads) {
            Err(
                ErrorView::Config(
                    "NaviDC-OCR: hidden_size "@ + text::dec(self.hidden_size as nat)
                        + " not divisible by num_attention_heads "@ + text::dec(
                        self.num_attention_heads as nat,
                    ) + " and no explicit head_dim"@,
                ),
            )
        } else {
            Ok((self.hidden_size / self.num_attention_heads) as usize)
        }
    }

    /// The size of one head.
    pub fn head_dim(&self) -> (r: Result<usize, Error>)
        requires
            self.head_dim_is_defined(),
        ensures
            error::tells(r, self.spec_head_dim()),
    {
        if let Some(head_dim) = self.head_dim {
            return Ok(head_dim);
        }
        if let Some(head_dim) = self.text_config.head_dim {
            return Ok(head_dim);
        }
        if !numbers::is_multiple(self.hidden_size, self.num_attention_heads) {
            return Err(
                Message::new("NaviDC-OCR: hidden_size ").num(self.hidden_size as u64).text(
                    " not divisible by num_attention_heads ",
                ).num(self.num_attention_heads as u64).text(" and no explicit head_dim").config(),
            );
        }
        Ok(self.hidden_size / self.num_attention_heads)
    }

    /// Whether the output weights are the token embeddings; either level may say so.
    pub fn tie_word_embeddings(&self) -> (r: bool)
        ensures
            r == (self.tie_word_embeddings || self.text_config.tie_word_embeddings),
    {
        self.tie_word_embeddings || self.text_config.tie_word_embeddings
    }

    /// The padding token, from either level.
    pub fn effective_pad_token_id(&self) -> (r: Option<u32>)
        ensures
            r == if self.pad_token_id is Some {
                self.pad_token_id
            } else {
                self.text_config.pad_token_id
            },
    {
        if self.pad_token_id.is_some() {
            self.pad_token_id
        } else {
            self.text_config.pad_token_id
        }
    }

    /// The end token; that of the upper level counts unless it is zero.
    pub fn effective_eos_token_id(&self) -> (r: u32)
        ensures
            r == if self.eos_token_id != 0 {
                self.eos_token_id
            } else {
                match self.text_config.eos_token_id {
                    Some(id) => id,
                    None => 0,
                }
            },
    {
        if self.eos_token_id != 0 {
            self.eos_token_id
        } else {
            match self.text_config.eos_token_id {
                Some(id) => id,
                None => 0,
            }
        }
    }

    /// The shares of the axes, which have to be given.
    pub fn mrope_section(&self) -> (r: Result<&Vec<usize>, Error>)
        ensures
            match r {
                Ok(sections) => sections@ == self.rope_scaling.mrope_section@
                    && sections@.len() > 0,
                Err(e) => self.rope_scaling.mrope_section@.len() == 0 && e@ == no_section(),
            },
    {
        if self.rope_scaling.mrope_section.len() == 0 {
            return Err(Error::config("NaviDC-OCR: rope_scaling.mrope_section is required"));
        }
        Ok(&self.rope_scaling.mrope_section)
    }

    /// The problem of query heads that cannot be shared out to key heads.
    pub open spec fn heads_problem(self) -> Option<ErrorView> {
        if !numbers::multiple(self.num_attention_heads, self.num_key_value_heads) {
            Some(
                ErrorView::Config(
                    "NaviDC-OCR: num_attention_heads ("@ + text::dec(
                        self.num_attention_heads as nat,
                    ) + ") must be divisible by num_key_value_heads ("@ + text::dec(
                        self.num_key_value_heads as nat,
                    ) + ")"@,
                ),
            )
        } else {
            None
        }
    }

    /// Checks the numbers of heads.
    pub fn validate_heads(&self) -> (r: Result<(), Error>)
        ensures
            error::verdict(self.heads_problem(), r),
    {
        if !numbers::is_multiple(self.num_attention_heads, self.num_key_value_heads) {
            return Err(
                Message::new("NaviDC-OCR: num_attention_heads (").num(
                    self.num_attention_heads as u64,
                ).text(") must be divisible by num_key_value_heads (").num(
                    self.num_key_value_heads as u64,
                ).text(")").config(),
            );
        }
        Ok(())
    }

    /// The first thing wrong with the rotary sections.
    pub open spec fn section_problem(self) -> Option<ErrorView> {
        let sections = self.rope_scaling.mrope_section@;
        let total = numbers::sum_upto(sections, sections.len());
        if self.spec_head_dim() is Err {
            Some(self.spec_head_dim()->Err_0)
        } else if sections.len() == 0 {
            Some(no_section())
        } else if total * 2 != self.spec_head_dim()->Ok_0 {
            Some(
                ErrorView::Config(
                    "NaviDC-OCR: mrope_section sums to "@ + text::dec(total) + "; doubled ("@
                        + text::dec((total * 2) as nat) + ") must equal head_dim "@ + text::dec(
                        self.spec_head_dim()->Ok_0 as nat,
                    ),
                ),
            )
        } else {
            None
        }
    }

    /// The first thing wrong with the model.
    pub open spec fn problem(self) -> Option<ErrorView> {
        if self.heads_problem() is Some {
            self.heads_problem()
        } else if self.section_problem() is Some {
            self.section_problem()
        } else if some_sliding(self.text_config.layer_types@) {
            Some(ErrorView::Config("NaviDC-OCR: sliding_attention layers are not supported"@))
        } else {
            self.vision_config.problem()
        }
    }

    /// Checks the model.
    pub fn validate(&self) -> (r: Result<(), Error>)
        requires
            self.head_dim_is_defined(),
            self.heads_problem() is None && self.spec_head_dim() is Ok ==> 2 * numbers::sum_upto(
                self.rope_scaling.mrope_section@,
                self.rope_scaling.mrope_section@.len(),
            ) <= usize::MAX,
        ensures
            error::verdict(self.problem(), r),
    {
        if let Err(e) = self.validate_heads() {
            return Err(e);
        }
        let head_dim: usize = match self.head_dim() {
            Ok(head_dim) => head_dim,
            Err(e) => return Err(e),
        };
        let sections = match self.mrope_section() {
            Ok(sections) => sections,
            Err(e) => return Err(e),
        };
        let total: usize = numbers::sum(sections);
        if total * 2 != head_dim {
            return Err(
                Message::new("NaviDC-OCR: mrope_section sums to ").num(total as u64).text(
                    "; doubled (",
                ).num((total * 2) as u64).text(") must equal head_dim ").num(
                    head_dim as u64,
                ).config(),
            );
        }
        if has_sliding(&self.text_config.layer_types) {
            return Err(
                Error::config("NaviDC-OCR: sliding_attention layers are not supported"),
            );
        }
        self.vision_config.validate()
    }
}

/// The error for a configuration without rotary sections.
pub open spec fn no_section() -> ErrorView {
    ErrorView::Config("NaviDC-OCR: rope_scaling.mrope_section is required"@)
}

impl NaviDcVisionConfig {
    /// What is told of the blocks is the first index that lies behind the last block.
    pub proof fn law_stray_index_is_the_first(self, from: int)
        requires
            0 <= from,
        ensures
            match self.stray_index(from) {
                Some(index) => exists|i: int|
                    from <= i < self.fullatt_block_indexes@.len()
                        && #[trigger] self.fullatt_block_indexes@[i] == index && index
                        >= self.depth && forall|j: int|
                        from <= j < i ==> #[trigger] self.fullatt_block_indexes@[j] < self.depth,
                None => forall|j: int|
                    from <= j < self.fullatt_block_indexes@.len()
                        ==> #[trigger] self.fullatt_block_indexes@[j] < self.depth,
            },
        decreases self.fullatt_block_indexes@.len() - from,
    {
        if from < self.fullatt_block_indexes@.len() {
            if self.fullatt_block_indexes@[from] < self.depth {
                self.law_stray_index_is_the_first(from + 1);
            }
        }
    }

    /// The vision tower is sound when its heads share the hidden size evenly, all its
    /// full-attention blocks exist, and windows are made of whole merged patches.
    pub proof fn law_sound_tower_has_whole_windows(self)
        ensures
            self.problem() is None <==> {
                &&& self.num_heads > 0
                &&& self.hidden_size % self.num_heads == 0
                &&& forall|j: int|
                    0 <= j < self.fullatt_block_indexes@.len()
                        ==> #[trigger] self.fullatt_block_indexes@[j] < self.depth
                &&& 0 < self.spatial_merge_size * self.patch_size <= usize::MAX
                &&& self.window_size as int % (self.spatial_merge_size * self.patch_size) == 0
            },
    {
        self.law_stray_index_is_the_first(0);
        assert(self.spatial_merge_size * self.patch_size >= 0) by (nonlinear_arith);
    }
}

impl NaviDcConfig {
    /// A configured head size is used as it is, the upper level first; else the heads
    /// share the hidden size evenly, or there is an error.
    pub proof fn law_heads_share_the_hidden_size(self)
        requires
            self.num_attention_heads > 0,
        ensures
            self.head_dim is Some ==> self.spec_head_dim() == Ok::<usize, ErrorView>(
                self.head_dim->Some_0,
            ),
            self.head_dim is None && self.text_config.head_dim is Some ==> self.spec_head_dim()
                == Ok::<usize, ErrorView>(self.text_config.head_dim->Some_0),
            self.head_dim is None && self.text_config.head_dim is None
                ==> match self.spec_head_dim() {
                Ok(d) => d * self.num_attention_heads == self.hidden_size,
                Err(_) => self.hidden_size % self.num_attention_heads != 0,
            },
    {
        let q = self.hidden_size as int / self.num_attention_heads as int;
        vstd::arithmetic::div_mod::lemma_fundamental_div_mod(
            self.hidden_size as int,
            self.num_attention_heads as int,
        );
        assert(self.num_attention_heads as int * q == q * self.num_attention_heads as int)
            by (nonlinear_arith);
    }

    /// The model is sound when its query heads are some number of times its key heads,
    /// the rotary sections share out half of a head, no layer slides, and the vision
    /// tower is sound.
    pub proof fn law_sound_model_has_no_sliding_layer(self)
        ensures
            self.problem() is None <==> {
                let sections = self.rope_scaling.mrope_section@;
                &&& exists|k: int|
                    self.num_attention_heads == #[trigger] (k * self.num_key_value_heads)
                &&& sections.len() > 0
                &&& self.spec_head_dim() matches Ok(d) && d == 2 * numbers::sum_upto(
                    sections,
                    sections.len(),
                )
                &&& forall|i: int|
                    0 <= i < self.text_config.layer_types@.len() ==> (
                    #[trigger] self.text_config.layer_types@[i])@ != "sliding_attention"@
                &&& self.vision_config.problem() is None
            },
    {
        numbers::law_multiple_is_a_product(self.num_attention_heads, self.num_key_value_heads);
    }
}

/// Whatever is wrong with the settings is told as a fault of the configuration.
pub proof fn law_faults_are_of_the_configuration(cfg: NaviDcConfig)
    ensures
        cfg.problem() matches Some(e) ==> e is Config,
        cfg.vision_config.problem() matches Some(e) ==> e is Config,
        cfg.spec_head_dim() matches Err(e) ==> e is Config,
{
}

} // verus!
