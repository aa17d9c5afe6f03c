//! Configuration of a checkpoint.
use crate::error::{self, Error, ErrorView, Fault, Message};
use crate::float::Float;
use crate::image;
use crate::numbers;
use crate::text;
use vstd::prelude::*;

verus! {

/// The least image area.
pub const OVIS_OCR2_MIN_PIXELS: u32 = 200_704;

/// The greatest image area.
pub const OVIS_OCR2_MAX_PIXELS: u32 = 8_294_400;

/// What processing steps do where nothing is configured.
pub fn default_true() -> (b: bool)
    ensures
        b,
{
    true
}

/// Rotary settings.
#[derive(Debug, Clone)]
pub struct OvisOcr2RopeParameters {
    pub rope_type: String,
    pub mrope_section: Vec<usize>,
    pub mrope_interleaved: bool,
    pub rope_theta: Float,
    pub partial_rotary_factor: Float,
}

/// The text decoder.
#[derive(Debug, Clone)]
pub struct OvisOcr2TextConfig {
    pub model_type: String,
    pub vocab_size: usize,
    pub hidden_size: usize,
    pub intermediate_size: usize,
    pub num_hidden_layers: usize,
    pub num_attention_heads: usize,
    pub num_key_value_heads: usize,
    pub head_dim: usize,
    /// The name of the activation.
    pub hidden_act: String,
    pub max_position_embeddings: usize,
    pub rms_norm_eps: Float,
    pub rope_parameters: OvisOcr2RopeParameters,
    pub layer_types: Vec<String>,
    pub linear_conv_kernel_dim: usize,
    pub linear_key_head_dim: usize,
    pub linear_value_head_dim: usize,
    pub linear_num_key_heads: usize,
    pub linear_num_value_heads: usize,
    pub eos_token_id: u32,
    pub attention_bias: bool,
    pub attn_output_gate: bool,
    pub tie_word_embeddings: bool,
}

/// Whether a list holds a zero.
fn has_zero(list: &Vec<usize>) -> (r: bool)
    ensures
        r == list@.contains(0),
{
    let mut i: usize = 0;
    while i < list.len()
        invariant
            i <= list.len(),
            forall|j: int| 0 <= j < i ==> list[j] != 0,
        decreases list.len() - i,
    {
        if list[i] == 0 {
            return true;
        }
        i = i + 1;
    }
    false
}

/// A layer kind that the decoder has.
pub open spec fn known_layer(kind: Seq<char>) -> bool {
    kind == "linear_attention"@ || kind == "full_attention"@
}

/// Whether all layers are of known kinds.
fn all_layers_known(kinds: &Vec<String>) -> (r: bool)
    ensures
        r == forall|i: int| 0 <= i < kinds.len() ==> known_layer((#[trigger] kinds[i])@),
{
    let mut i: usize = 0;
    while i < kinds.len()
        invariant
            i <= kinds.len(),
            forall|j: int| 0 <= j < i ==> known_layer((#[trigger] kinds[j])@),
        decreases kinds.len() - i,
    {
        let kind = kinds[i].as_str();
        if !text::same(kind, "linear_attention") && !text::same(kind, "full_attention") {
            proof {
                assert(!known_layer(kinds[i as int]@));
            }
            return false;
        }
        i = i + 1;
    }
    true
}

impl OvisOcr2TextConfig {
    /// A main dimension is missing.
    pub open spec fn lacks_dimension(self) -> bool {
        ||| self.hidden_size == 0
        ||| self.intermediate_size == 0
        ||| self.vocab_size == 0
        ||| self.num_hidden_layers == 0
        ||| self.num_attention_heads == 0
        ||| self.num_key_value_heads == 0
        ||| self.head_dim == 0
        ||| self.max_position_embeddings == 0
    }

    /// The first thing wrong with the kind of decoder and its vocabulary.
    pub open spec fn kind_problem(self) -> Option<ErrorView> {
        if self.lacks_dimension() {
            Some(ErrorView::Config("OvisOCR2 text dimensions must be non-zero"@))
        } else if self.model_type@ != "qwen3_5_text"@ {
            Some(
                ErrorView::Config(
                    "OvisOCR2 expected text model_type 'qwen3_5_text', got '"@ + self.model_type@
                        + "'"@,
                ),
            )
        } else if self.hidden_act@ != "Silu"@ {
            Some(
                ErrorView::Config(
                    "OvisOCR2 text decoder supports hidden_act 'silu', got "@ + self.hidden_act@,
                ),
            )
        } else if self.attention_bias {
            Some(ErrorView::Config("OvisOCR2 attention_bias=true is not supported"@))
        } else if !self.attn_output_gate {
            Some(ErrorView::Config("OvisOCR2 requires attn_output_gate=true"@))
        } else if !self.rms_norm_eps.spec_finite() || !self.rms_norm_eps.spec_positive() {
            Some(
                ErrorView::Config(
                    "OvisOCR2 rms_norm_eps must be finite and positive, got "@
                        + self.rms_norm_eps.text@,
                ),
            )
        } else if self.eos_token_id >= self.vocab_size {
            Some(
                ErrorView::Config(
                    "OvisOCR2 eos_token_id "@ + text::dec(self.eos_token_id as nat)
                        + " is outside vocab_size "@ + text::dec(self.vocab_size as nat),
                ),
            )
        } else {
            None
        }
    }

    /// Checks the kind of decoder and its vocabulary.
    fn validate_kind(&self) -> (r: Result<(), Error>)
        ensures
            error::verdict(self.kind_problem(), r),
    {
        if self.hidden_size == 0 || self.intermediate_size == 0 || self.vocab_size == 0
            || self.num_hidden_layers == 0 || self.num_attention_heads == 0
            || self.num_key_value_heads == 0 || self.head_dim == 0 || self.max_position_embeddings
            == 0 {
            return Err(Error::config("OvisOCR2 text dimensions must be non-zero"));
        }
        if !text::same(self.model_type.as_str(), "qwen3_5_text") {
            return Err(
                Message::new("OvisOCR2 expected text model_type 'qwen3_5_text', got '").text(
                    self.model_type.as_str(),
                ).text("'").config(),
            );
        }
        if !text::same(self.hidden_act.as_str(), "Silu") {
            return Err(
                Message::new("OvisOCR2 text decoder supports hidden_act 'silu', got ").text(
                    self.hidden_act.as_str(),
                ).config(),
            );
        }
        if self.attention_bias {
            return Err(Error::config("OvisOCR2 attention_bias=true is not supported"));
        }
        if !self.attn_output_gate {
            return Err(Error::config("OvisOCR2 requires attn_output_gate=true"));
        }
        if !self.rms_norm_eps.is_finite() || !self.rms_norm_eps.is_positive() {
            return Err(
                Message::new("OvisOCR2 rms_norm_eps must be finite and positive, got ").text(
                    self.rms_norm_eps.text.as_str(),
                ).config(),
            );
        }
        if self.eos_token_id as usize >= self.vocab_size {
            return Err(
                Message::new("OvisOCR2 eos_token_id ").num(self.eos_token_id as u64).text(
                    " is outside vocab_size ",
                ).num(self.vocab_size as u64).config(),
            );
        }
        Ok(())
    }

    /// The first thing wrong with the layers and their heads.
    pub open spec fn layer_problem(self) -> Option<ErrorView> {
        if !numbers::multiple(self.num_attention_heads, self.num_key_value_heads) {
            Some(
                ErrorView::Config(
                    "OvisOCR2 num_attention_heads ("@ + text::dec(self.num_attention_heads as nat)
                        + ") must be divisible by num_key_value_heads ("@ + text::dec(
                        self.num_key_value_heads as nat,
                    ) + ")"@,
                ),
            )
        } else if self.layer_types@.len() != self.num_hidden_layers {
            Some(
                ErrorView::Config(
                    "OvisOCR2 layer_types length ("@ + text::dec(self.layer_types@.len())
                        + ") must equal num_hidden_layers ("@ + text::dec(
                        self.num_hidden_layers as nat,
                    ) + ")"@,
                ),
            )
        } else if !(forall|i: int|
            0 <= i < self.layer_types@.len() ==> known_layer((#[trigger] self.layer_types@[i])@)) {
            Some(ErrorView::Config("OvisOCR2 layer_types contains an unsupported layer type"@))
        } else if self.linear_conv_kernel_dim == 0 || self.linear_key_head_dim == 0
            || self.linear_value_head_dim == 0 || self.linear_num_key_heads == 0
            || self.linear_num_value_heads == 0 {
            Some(ErrorView::Config("OvisOCR2 linear-attention dimensions must be non-zero"@))
        } else if self.linear_key_head_dim != self.linear_value_head_dim {
            Some(
                ErrorView::Config(
                    "OvisOCR2 requires equal linear key/value head dims, got "@ + text::dec(
                        self.linear_key_head_dim as nat,
                    ) + "/"@ + text::dec(self.linear_value_head_dim as nat),
                ),
            )
        } else if !numbers::multiple(self.linear_num_value_heads, self.linear_num_key_heads) {
            Some(
                ErrorView::Config(
                    "OvisOCR2 linear_num_value_heads ("@ + text::dec(
                        self.linear_num_value_heads as nat,
                    ) + ") must be divisible by linear_num_key_heads ("@ + text::dec(
                        self.linear_num_key_heads as nat,
                    ) + ")"@,
                ),
            )
        } else {
            None
        }
    }

    /// Checks the layers and their heads.
    fn validate_layers(&self) -> (r: Result<(), Error>)
        ensures
            error::verdict(self.layer_problem(), r),
    {
        if !numbers::is_multiple(self.num_attention_heads, self.num_key_value_heads) {
            return Err(
                Message::new("OvisOCR2 num_attention_heads (").num(
                    self.num_attention_heads as u64,
                ).text(") must be divisible by num_key_value_heads (").num(
                    self.num_key_value_heads as u64,
                ).text(")").config(),
            );
        }
        if self.layer_types.len() != self.num_hidden_layers {
            return Err(
                Message::new("OvisOCR2 layer_types length (").num(
                    self.layer_types.len() as u64,
                ).text(") must equal num_hidden_layers (").num(
                    self.num_hidden_layers as u64,
                ).text(")").config(),
            );
        }
        if !all_layers_known(&self.layer_types) {
            return Err(Error::config("OvisOCR2 layer_types contains an unsupported layer type"));
        }
        if self.linear_conv_kernel_dim == 0 || self.linear_key_head_dim == 0
            || self.linear_value_head_dim == 0 || self.linear_num_key_heads == 0
            || self.linear_num_value_heads == 0 {
            return Err(Error::config("OvisOCR2 linear-attention dimensions must be non-zero"));
        }
        if self.linear_key_head_dim != self.linear_value_head_dim {
            return Err(
                Message::new("OvisOCR2 requires equal linear key/value head dims, got ").num(
                    self.linear_key_head_dim as u64,
                ).text("/").num(self.linear_value_head_dim as u64).config(),
            );
        }
        if !numbers::is_multiple(self.linear_num_value_heads, self.linear_num_key_heads) {
            return Err(
                Message::new("OvisOCR2 linear_num_value_heads (").num(
                    self.linear_num_value_heads as u64,
                ).text(") must be divisible by linear_num_key_heads (").num(
                    self.linear_num_key_heads as u64,
                ).text(")").config(),
            );
        }
        Ok(())
    }

    /// The rotating part of a head.
    pub open spec fn rotary_dim(self) -> int {
        self.rope_parameters.partial_rotary_factor.spec_share(self.head_dim)
    }

    /// The first thing wrong with the rotary settings.
    pub open spec fn rope_problem(self) -> Option<ErrorView> {
        let rope = self.rope_parameters;
        let sections = rope.mrope_section@;
        let sum = numbers::sum_upto(sections, sections.len());
        if rope.rope_type@ != "default"@ {
            Some(ErrorView::Config("OvisOCR2 unsupported rope_type '"@ + rope.rope_type@ + "'"@))
        } else if !rope.mrope_interleaved {
            Some(ErrorView::Config("OvisOCR2 requires interleaved MRoPE"@))
        } else if sections.len() != 3 || sections.contains(0) {
            Some(
                ErrorView::Config("OvisOCR2 mrope_section must contain three non-zero entries"@),
            )
        } else if !rope.rope_theta.spec_finite() || !rope.rope_theta.spec_positive() {
            Some(
                ErrorView::Config(
                    "OvisOCR2 rope_theta must be finite and positive, got "@ + rope.rope_theta.text@,
                ),
            )
        } else if !rope.partial_rotary_factor.spec_in_unit() {
            Some(
                ErrorView::Config(
                    "OvisOCR2 partial_rotary_factor must be in (0, 1], got "@
                        + rope.partial_rotary_factor.text@,
                ),
            )
        } else if sum > usize::MAX {
            Some(ErrorView::Config("OvisOCR2 mrope_section sum overflow"@))
        } else if self.rotary_dim() == 0 || self.rotary_dim() % 2 != 0 || sum != self.rotary_dim()
            / 2 {
            Some(
                ErrorView::Config(
                    "OvisOCR2 mrope_section "@ + text::dec_list(sections)
                        + " must sum to rotary_dim/2 ("@ + text::dec(
                        (self.rotary_dim() / 2) as nat,
                    ) + ")"@,
                ),
            )
        } else {
            None
        }
    }

    /// Checks the rotary settings.
    fn validate_rope(&self) -> (r: Result<(), Error>)
        ensures
            error::verdict(self.rope_problem(), r),
    {
        let rope = &self.rope_parameters;
        if !text::same(rope.rope_type.as_str(), "default") {
            return Err(
                Message::new("OvisOCR2 unsupported rope_type '").text(
                    rope.rope_type.as_str(),
                ).text("'").config(),
            );
        }
        if !rope.mrope_interleaved {
            return Err(Error::config("OvisOCR2 requires interleaved MRoPE"));
        }
        if rope.mrope_section.len() != 3 || has_zero(&rope.mrope_section) {
            return Err(
                Error::config("OvisOCR2 mrope_section must contain three non-zero entries"),
            );
        }
        if !rope.rope_theta.is_finite() || !rope.rope_theta.is_positive() {
            return Err(
                Message::new("OvisOCR2 rope_theta must be finite and positive, got ").text(
                    rope.rope_theta.text.as_str(),
                ).config(),
            );
        }
        if !rope.partial_rotary_factor.in_unit() {
            return Err(
                Message::new("OvisOCR2 partial_rotary_factor must be in (0, 1], got ").text(
                    rope.partial_rotary_factor.text.as_str(),
                ).config(),
            );
        }
        let rotary_dim: usize = rope.partial_rotary_factor.share_of(self.head_dim);
        let sum: usize = match numbers::checked_sum(&rope.mrope_section) {
            Some(sum) => sum,
            None => return Err(Error::config("OvisOCR2 mrope_section sum overflow")),
        };
        if rotary_dim == 0 || rotary_dim % 2 != 0 || sum != rotary_dim / 2 {
            return Err(
                Message::new("OvisOCR2 mrope_section ").nums(&rope.mrope_section).text(
                    " must sum to rotary_dim/2 (",
                ).num((rotary_dim / 2) as u64).text(")").config(),
            );
        }
        Ok(())
    }

    /// The first thing wrong with the decoder.
    pub open spec fn problem(self) -> Option<ErrorView> {
        error::first_of(
            self.kind_problem(),
            error::first_of(self.layer_problem(), self.rope_problem()),
        )
    }

    /// Checks the decoder.
    pub fn validate(&self) -> (r: Result<(), Error>)
        ensures
            error::verdict(self.problem(), r),
    {
        if let Err(e) = self.validate_kind() {
            return Err(e);
        }
        if let Err(e) = self.validate_layers() {
            return Err(e);
        }
        self.validate_rope()
    }
}

/// The vision tower.
#[derive(Debug, Clone)]
pub struct OvisOcr2VisionConfig {
    pub model_type: String,
    pub depth: usize,
    pub hidden_size: usize,
    pub intermediate_size: usize,
    pub num_heads: usize,
    pub in_channels: usize,
    pub patch_size: usize,
    pub spatial_merge_size: usize,
    pub temporal_patch_size: usize,
    pub out_hidden_size: usize,
    pub num_position_embeddings: usize,
    /// The name of the activation.
    pub hidden_act: String,
    pub deepstack_visual_indexes: Vec<usize>,
}

/// The whole root of a number.
fn whole_root(n: usize) -> (r: usize)
    ensures
        r * r <= n,
        n < (r + 1) * (r + 1),
{
    let mut low: usize = 0;
    let mut high: usize = n;
    proof {
        assert(n < (n + 1) * (n + 1)) by (nonlinear_arith)
            requires
                n >= 0,
        ;
    }
    while low < high
        invariant
            low <= high <= n,
            low * low <= n,
            n < (high + 1) * (high + 1),
        decreases high - low,
    {
        let mid: usize = low + (high - low - 1) / 2 + 1;
        proof {
            assert(mid > 0);
            assert((n / mid) * mid <= n < (n / mid + 1) * mid) by (nonlinear_arith)
                requires
                    mid > 0,
            ;
        }
        if mid <= n / mid {
            proof {
                assert(mid * mid <= n) by (nonlinear_arith)
                    requires
                        mid <= n / mid,
                        (n / mid) * mid <= n,
                        mid > 0,
                ;
            }
            low = mid;
        } else {
            proof {
                assert(n < mid * mid) by (nonlinear_arith)
                    requires
                        n / mid + 1 <= mid,
                        n < (n / mid + 1) * mid,
                        mid > 0,
                ;
            }
            high = mid - 1;
        }
    }
    low
}

impl OvisOcr2VisionConfig {
    /// The size of one head.
    pub open spec fn spec_head_dim(self) -> Result<usize, ErrorView> {
        if self.num_heads == 0 || self.hidden_size % self.num_heads != 0 {
            Err(
                ErrorView::Config(
                    "OvisOCR2 vision hidden_size "@ + text::dec(self.hidden_size as nat)
                        + " must be divisible by num_heads "@ + text::dec(self.num_heads as nat),
                ),
            )
        } else {
            Ok((self.hidden_size / self.num_heads) as usize)
        }
    }

    /// The size of one head.
    pub fn head_dim(&self) -> (r: Result<usize, Error>)
        ensures
            error::tells(r, self.spec_head_dim()),
    {
        if self.num_heads == 0 || self.hidden_size % self.num_heads != 0 {
            return Err(
                Message::new("OvisOCR2 vision hidden_size ").num(self.hidden_size as u64).text(
                    " must be divisible by num_heads ",
                ).num(self.num_heads as u64).config(),
            );
        }
        Ok(self.hidden_size / self.num_heads)
    }

    /// The error for a number of position embeddings that is no square.
    pub open spec fn no_square(self) -> ErrorView {
        ErrorView::Config(
            "OvisOCR2 num_position_embeddings must be a non-zero square, got "@ + text::dec(
                self.num_position_embeddings as nat,
            ),
        )
    }

    /// The position embeddings form a square grid.
    pub open spec fn is_square(self) -> bool {
        exists|side: usize| side > 0 && #[trigger] (side * side) == self.num_position_embeddings
    }

    /// The side of the square grid of position embeddings.
    pub fn position_grid_size(&self) -> (r: Result<usize, Error>)
        ensures
            match r {
                Ok(side) => side > 0 && side * side == self.num_position_embeddings,
                Err(e) => !self.is_square() && e@ == self.no_square(),
            },
    {
        let n: usize = self.num_position_embeddings;
        let side: usize = whole_root(n);
        if side == 0 || side * side != n {
            proof {
                assert forall|s: usize| s > 0 implies #[trigger] (s * s) != n by {
                    if s <= side {
                        assert(s * s <= side * side) by (nonlinear_arith)
                            requires
                                s <= side,
                        ;
                        if s < side {
                            assert(s * s < side * side) by (nonlinear_arith)
                                requires
                                    0 < s < side,
                            ;
                        }
                    } else {
                        assert(s * s >= (side + 1) * (side + 1)) by (nonlinear_arith)
                            requires
                                s >= side + 1,
                        ;
                    }
                }
            }
            return Err(
                Message::new(
                    "OvisOCR2 num_position_embeddings must be a non-zero square, got ",
                ).num(n as u64).config(),
            );
        }
        Ok(side)
    }

    /// A dimension is missing.
    pub open spec fn lacks_dimension(self) -> bool {
        ||| self.hidden_size == 0
        ||| self.intermediate_size == 0
        ||| self.in_channels == 0
        ||| self.patch_size == 0
        ||| self.spatial_merge_size == 0
        ||| self.temporal_patch_size == 0
        ||| self.out_hidden_size == 0
    }

    /// The first thing wrong with the vision tower.
    pub open spec fn problem(self) -> Option<ErrorView> {
        if self.model_type@ != "qwen3_5"@ {
            Some(
                ErrorView::Config(
                    "OvisOCR2 expected vision model_type 'qwen3_5', got '"@ + self.model_type@
                        + "'"@,
                ),
            )
        } else if self.lacks_dimension() {
            Some(ErrorView::Config("OvisOCR2 vision dimensions must be non-zero"@))
        } else if let Err(e) = self.spec_head_dim() {
            Some(e)
        } else if self.spec_head_dim()->Ok_0 % 4 != 0 {
            Some(
                ErrorView::Config(
                    "OvisOCR2 vision head_dim must be divisible by 4 for 2D RoPE, got "@
                        + text::dec(self.spec_head_dim()->Ok_0 as nat),
                ),
            )
        } else if !self.is_square() {
            Some(self.no_square())
        } else if self.deepstack_visual_indexes@.len() > 0 {
            Some(ErrorView::Config("OvisOCR2 deepstack vision features are not supported"@))
        } else {
            None
        }
    }

    /// Checks the vision tower.
    pub fn validate(&self) -> (r: Result<(), Error>)
        ensures
            error::verdict(self.problem(), r),
    {
        if !text::same(self.model_type.as_str(), "qwen3_5") {
            return Err(
                Message::new("OvisOCR2 expected vision model_type 'qwen3_5', got '").text(
                    self.model_type.as_str(),
                ).text("'").config(),
            );
        }
        if self.hidden_size == 0 || self.intermediate_size == 0 || self.in_channels == 0
            || self.patch_size == 0 || self.spatial_merge_size == 0 || self.temporal_patch_size == 0
            || self.out_hidden_size == 0 {
            return Err(Error::config("OvisOCR2 vision dimensions must be non-zero"));
        }
        let head_dim: usize = match self.head_dim() {
            Ok(head_dim) => head_dim,
            Err(e) => return Err(e),
        };
        if head_dim % 4 != 0 {
            return Err(
                Message::new(
                    "OvisOCR2 vision head_dim must be divisible by 4 for 2D RoPE, got ",
                ).num(head_dim as u64).config(),
            );
        }
        match self.position_grid_size() {
            Ok(side) => {
                proof {
                    assert(side * side == self.num_position_embeddings);
                }
            },
            Err(e) => return Err(e),
        }
        if self.deepstack_visual_indexes.len() > 0 {
            return Err(Error::config("OvisOCR2 deepstack vision features are not supported"));
        }
        Ok(())
    }
}

/// The whole model.
#[derive(Debug, Clone)]
pub struct OvisOcr2Config {
    pub architectures: Vec<String>,
    pub model_type: String,
    pub text_config: OvisOcr2TextConfig,
    pub vision_config: OvisOcr2VisionConfig,
    pub image_token_id: u32,
    pub video_token_id: u32,
    pub vision_start_token_id: u32,
    pub vision_end_token_id: u32,
    pub tie_word_embeddings: bool,
}

/// The problem of a token id that the vocabulary does not reach.
pub open spec fn token_problem(name: Seq<char>, id: u32, vocab_size: usize) -> Option<ErrorView> {
    if id >= vocab_size {
        Some(
            ErrorView::Config(
                "OvisOCR2 "@ + name + " "@ + text::dec(id as nat) + " is outside vocab_size "@
                    + text::dec(vocab_size as nat),
            ),
        )
    } else {
        None
    }
}

/// Checks one token id.
fn validate_token(name: &str, id: u32, vocab_size: usize) -> (r: Result<(), Error>)
    ensures
        error::verdict(token_problem(name@, id, vocab_size), r),
{
    if id as usize >= vocab_size {
        return Err(
            Message::new("OvisOCR2 ").text(name).text(" ").num(id as u64).text(
                " is outside vocab_size ",
            ).num(vocab_size as u64).config(),
        );
    }
    Ok(())
}

impl OvisOcr2Config {
    /// Whether the output weights are the token embeddings.
    pub open spec fn ties(self) -> bool {
        self.tie_word_embeddings || self.text_config.tie_word_embeddings
    }

    /// Whether the output weights are the token embeddings; either level may say so.
    pub fn tie_word_embeddings(&self) -> (r: bool)
        ensures
            r == self.ties(),
    {
        self.tie_word_embeddings || self.text_config.tie_word_embeddings
    }

    /// The first token id that the vocabulary does not reach.
    pub open spec fn tokens_problem(self) -> Option<ErrorView> {
        let vocab = self.text_config.vocab_size;
        error::first_of(
            token_problem("image_token_id"@, self.image_token_id, vocab),
            error::first_of(
                token_problem("video_token_id"@, self.video_token_id, vocab),
                error::first_of(
                    token_problem("vision_start_token_id"@, self.vision_start_token_id, vocab),
                    token_problem("vision_end_token_id"@, self.vision_end_token_id, vocab),
                ),
            ),
        )
    }

    /// The first thing wrong with the model.
    pub open spec fn problem(self) -> Option<ErrorView> {
        if self.model_type@ != "qwen3_5"@ {
            Some(
                ErrorView::Config(
                    "OvisOCR2 expected model_type 'qwen3_5', got '"@ + self.model_type@ + "'"@,
                ),
            )
        } else if self.text_config.problem() is Some {
            self.text_config.problem()
        } else if self.vision_config.problem() is Some {
            self.vision_config.problem()
        } else if !self.ties() {
            Some(ErrorView::Config("OvisOCR2 requires tied token embeddings"@))
        } else if self.tokens_problem() is Some {
            self.tokens_problem()
        } else if self.vision_config.out_hidden_size != self.text_config.hidden_size {
            Some(
                ErrorView::Config(
                    "OvisOCR2 vision out_hidden_size ("@ + text::dec(
                        self.vision_config.out_hidden_size as nat,
                    ) + ") must equal text hidden_size ("@ + text::dec(
                        self.text_config.hidden_size as nat,
                    ) + ")"@,
                ),
            )
        } else {
            None
        }
    }

    /// Checks the model.
    pub fn validate(&self) -> (r: Result<(), Error>)
        ensures
            error::verdict(self.problem(), r),
    {
        if !text::same(self.model_type.as_str(), "qwen3_5") {
            return Err(
                Message::new("OvisOCR2 expected model_type 'qwen3_5', got '").text(
                    self.model_type.as_str(),
                ).text("'").config(),
            );
        }
        if let Err(e) = self.text_config.validate() {
            return Err(e);
        }
        if let Err(e) = self.vision_config.validate() {
            return Err(e);
        }
        if !self.tie_word_embeddings() {
            return Err(Error::config("OvisOCR2 requires tied token embeddings"));
        }
        let vocab: usize = self.text_config.vocab_size;
        if let Err(e) = validate_token("image_token_id", self.image_token_id, vocab) {
            return Err(e);
        }
        if let Err(e) = validate_token("video_token_id", self.video_token_id, vocab) {
            return Err(e);
        }
        if let Err(e) = validate_token("vision_start_token_id", self.vision_start_token_id, vocab) {
            return Err(e);
        }
        if let Err(e) = validate_token("vision_end_token_id", self.vision_end_token_id, vocab) {
            return Err(e);
        }
        if self.vision_config.out_hidden_size != self.text_config.hidden_size {
            return Err(
                Message::new("OvisOCR2 vision out_hidden_size (").num(
                    self.vision_config.out_hidden_size as u64,
                ).text(") must equal text hidden_size (").num(
                    self.text_config.hidden_size as u64,
                ).text(")").config(),
            );
        }
        Ok(())
    }
}

/// The area bounds that a checkpoint advertises.
#[derive(Debug, Clone, Copy, PartialEq, Eq, Structural)]
pub struct OvisOcr2ImageProcessorSize {
    pub shortest_edge: u32,
    pub longest_edge: u32,
}

/// The image processor.
#[derive(Debug, Clone)]
pub struct OvisOcr2ImageProcessorConfig {
    pub size: OvisOcr2ImageProcessorSize,
    pub patch_size: usize,
    pub temporal_patch_size: usize,
    pub merge_size: usize,
    pub image_mean: Vec<Float>,
    pub image_std: Vec<Float>,
    pub do_resize: bool,
    pub do_rescale: bool,
    pub do_normalize: bool,
    pub do_convert_rgb: bool,
    pub rescale_factor: Float,
    pub resample: Option<u32>,
}

/// All values of a list are finite.
pub open spec fn all_finite(list: Seq<Float>) -> bool {
    forall|i: int| 0 <= i < list.len() ==> (#[trigger] list[i]).spec_finite()
}

/// All values of a list are greater than zero.
pub open spec fn all_positive(list: Seq<Float>) -> bool {
    forall|i: int| 0 <= i < list.len() ==> (#[trigger] list[i]).spec_positive()
}

/// Decides [`all_finite`].
fn are_finite(list: &Vec<Float>) -> (r: bool)
    ensures
        r == all_finite(list@),
{
    let mut i: usize = 0;
    while i < list.len()
        invariant
            i <= list.len(),
            forall|j: int| 0 <= j < i ==> (#[trigger] list@[j]).spec_finite(),
        decreases list.len() - i,
    {
        if !list[i].is_finite() {
            proof {
                assert(!list@[i as int].spec_finite());
            }
            return false;
        }
        i = i + 1;
    }
    true
}

/// Decides [`all_positive`].
fn are_positive(list: &Vec<Float>) -> (r: bool)
    ensures
        r == all_positive(list@),
{
    let mut i: usize = 0;
    while i < list.len()
        invariant
            i <= list.len(),
            forall|j: int| 0 <= j < i ==> (#[trigger] list@[j]).spec_positive(),
        decreases list.len() - i,
    {
        if !list[i].is_positive() {
            proof {
                assert(!list@[i as int].spec_positive());
            }
            return false;
        }
        i = i + 1;
    }
    true
}

impl OvisOcr2ImageProcessorConfig {
    /// The area bounds of the runtime; those of the checkpoint are wider.
    pub fn runtime_pixel_bounds(&self) -> (r: (u32, u32))
        ensures
            r == (200_704u32, 8_294_400u32),
    {
        (OVIS_OCR2_MIN_PIXELS, OVIS_OCR2_MAX_PIXELS)
    }

    /// The first thing wrong with the processor.
    pub open spec fn problem(self) -> Option<Fault> {
        if !image::has_channels(self.image_mean@, self.image_std@) {
            Some(Fault::Config)
        } else if self.channel_value_problem() is Some {
            Some(Fault::Told(self.channel_value_problem()->0))
        } else if !image::has_patches(self.patch_size, self.merge_size, self.temporal_patch_size) {
            Some(Fault::Config)
        } else if self.size_problem() is Some {
            Some(Fault::Told(self.size_problem()->0))
        } else {
            None
        }
    }

    /// The first thing wrong with the values that channels are computed with.
    pub open spec fn channel_value_problem(self) -> Option<ErrorView> {
        if !all_finite(self.image_mean@) || !all_finite(self.image_std@) {
            Some(ErrorView::Config("OvisOCR2 image_mean/std values must be finite"@))
        } else if self.do_normalize && !all_positive(self.image_std@) {
            Some(ErrorView::Config("OvisOCR2 image_std values must be positive"@))
        } else if self.do_rescale && !self.rescale_factor.spec_finite() {
            Some(
                ErrorView::Config(
                    "OvisOCR2 rescale_factor must be finite, got "@ + self.rescale_factor.text@,
                ),
            )
        } else {
            None
        }
    }

    /// The first thing wrong with the size bounds and the filter.
    pub open spec fn size_problem(self) -> Option<ErrorView> {
        if self.size.shortest_edge == 0 || self.size.longest_edge == 0 {
            Some(ErrorView::Config("OvisOCR2 processor size bounds must be non-zero"@))
        } else if self.size.shortest_edge > self.size.longest_edge {
            Some(
                ErrorView::Config(
                    "OvisOCR2 shortest_edge "@ + text::dec(self.size.shortest_edge as nat)
                        + " exceeds longest_edge "@ + text::dec(self.size.longest_edge as nat),
                ),
            )
        } else if self.resample matches Some(resample) && resample > 5 {
            Some(
                ErrorView::Config(
                    "OvisOCR2 unsupported PIL resample value "@ + text::dec(
                        self.resample->0 as nat,
                    ),
                ),
            )
        } else {
            None
        }
    }

    /// Checks the processor.
    pub fn validate(&self) -> (r: Result<(), Error>)
        ensures
            error::finds(self.problem(), r),
    {
        if let Err(e) = image::validate_channels("OvisOCR2", &self.image_mean, &self.image_std) {
            return Err(e);
        }
        if !are_finite(&self.image_mean) || !are_finite(&self.image_std) {
            return Err(Error::config("OvisOCR2 image_mean/std values must be finite"));
        }
        if self.do_normalize && !are_positive(&self.image_std) {
            return Err(Error::config("OvisOCR2 image_std values must be positive"));
        }
        if self.do_rescale && !self.rescale_factor.is_finite() {
            return Err(
                Message::new("OvisOCR2 rescale_factor must be finite, got ").text(
                    self.rescale_factor.text.as_str(),
                ).config(),
            );
        }
        if let Err(e) = image::validate_patches(
            "OvisOCR2",
            self.patch_size,
            self.merge_size,
            self.temporal_patch_size,
        ) {
            return Err(e);
        }
        if self.size.shortest_edge == 0 || self.size.longest_edge == 0 {
            return Err(Error::config("OvisOCR2 processor size bounds must be non-zero"));
        }
        if self.size.shortest_edge > self.size.longest_edge {
            return Err(
                Message::new("OvisOCR2 shortest_edge ").num(self.size.shortest_edge as u64).text(
                    " exceeds longest_edge ",
                ).num(self.size.longest_edge as u64).config(),
            );
        }
        if let Some(resample) = self.resample {
            if resample > 5 {
                return Err(
                    Message::new("OvisOCR2 unsupported PIL resample value ").num(
                        resample as u64,
                    ).config(),
                );
            }
        }
        Ok(())
    }
}

impl OvisOcr2TextConfig {
    /// The kind of decoder is sound when no dimension is zero, it is the known network
    /// without attention biases and with output gates, its epsilon is finite and
    /// positive, and its end token is in the vocabulary.
    pub proof fn law_sound_kind_is_the_known_network(self)
        ensures
            self.kind_problem() is None <==> {
                &&& self.hidden_size > 0
                &&& self.intermediate_size > 0
                &&& self.vocab_size > 0
                &&& self.num_hidden_layers > 0
                &&& self.num_attention_heads > 0
                &&& self.num_key_value_heads > 0
                &&& self.head_dim > 0
                &&& self.max_position_embeddings > 0
                &&& self.model_type@ == "qwen3_5_text"@
                &&& self.hidden_act@ == "Silu"@
                &&& !self.attention_bias
                &&& self.attn_output_gate
                &&& self.rms_norm_eps.spec_finite()
                &&& self.rms_norm_eps.spec_positive()
                &&& self.eos_token_id < self.vocab_size
            },
    {
    }

    /// The layers are sound when each has a known type, query heads are some number of
    /// times key heads, no linear dimension is zero, and linear heads of values are as
    /// wide as those of keys and some number of times as many.
    pub proof fn law_sound_layers_have_known_types(self)
        ensures
            self.layer_problem() is None <==> {
                &&& exists|k: int|
                    self.num_attention_heads == #[trigger] (k * self.num_key_value_heads)
                &&& self.layer_types@.len() == self.num_hidden_layers
                &&& forall|i: int|
                    0 <= i < self.layer_types@.len() ==> (#[trigger] self.layer_types@[i])@
                        == "linear_attention"@ || self.layer_types@[i]@ == "full_attention"@
                &&& self.linear_conv_kernel_dim > 0
                &&& self.linear_key_head_dim > 0
                &&& self.linear_value_head_dim == self.linear_key_head_dim
                &&& self.linear_num_key_heads > 0
                &&& self.linear_num_value_heads > 0
                &&& exists|k: int|
                    self.linear_num_value_heads == #[trigger] (k * self.linear_num_key_heads)
            },
    {
        numbers::law_multiple_is_a_product(self.num_attention_heads, self.num_key_value_heads);
        numbers::law_multiple_is_a_product(self.linear_num_value_heads, self.linear_num_key_heads);
        if self.layer_problem() is None {
            assert forall|i: int| 0 <= i < self.layer_types@.len() implies (
            #[trigger] self.layer_types@[i])@ == "linear_attention"@ || self.layer_types@[i]@
                == "full_attention"@ by {
                assert(known_layer(self.layer_types@[i]@));
            }
        }
    }

    /// The rotary settings are sound when the rotation is the usual one, interleaved,
    /// with three sections, none empty, that share out half of the rotating lanes.
    pub proof fn law_sound_rotation_has_three_sections(self)
        ensures
            self.rope_problem() is None <==> {
                let rope = self.rope_parameters;
                let sections = rope.mrope_section@;
                &&& rope.rope_type@ == "default"@
                &&& rope.mrope_interleaved
                &&& sections.len() == 3
                &&& sections[0] > 0
                &&& sections[1] > 0
                &&& sections[2] > 0
                &&& rope.rope_theta.spec_finite()
                &&& rope.rope_theta.spec_positive()
                &&& rope.partial_rotary_factor.spec_in_unit()
                &&& 2 * (sections[0] + sections[1] + sections[2])
                    == rope.partial_rotary_factor.spec_share(self.head_dim)
            },
    {
        let sections = self.rope_parameters.mrope_section@;
        if sections.len() == 3 {
            assert(numbers::sum_upto(sections, 0) == 0);
            assert(numbers::sum_upto(sections, 1) == sections[0]);
            assert(numbers::sum_upto(sections, 2) == sections[0] + sections[1]);
            assert(numbers::sum_upto(sections, 3) == sections[0] + sections[1] + sections[2]);
            if sections[0] > 0 && sections[1] > 0 && sections[2] > 0 {
                assert forall|i: int| 0 <= i < 3 implies #[trigger] sections[i] != 0 by {}
            }
        }
    }

    /// The decoder is sound when its kind, its layers and its rotation are.
    pub proof fn law_sound_decoder_is_sound_in_all_parts(self)
        ensures
            self.problem() is None <==> self.kind_problem() is None && self.layer_problem() is None
                && self.rope_problem() is None,
    {
    }
}

impl OvisOcr2VisionConfig {
    /// The vision tower is sound when it is the known network, no dimension is zero,
    /// heads share the hidden size evenly in whole fours, the positions form a square,
    /// and no layer is tapped.
    pub proof fn law_sound_tower_has_square_positions(self)
        ensures
            self.problem() is None <==> {
                &&& self.model_type@ == "qwen3_5"@
                &&& self.hidden_size > 0
                &&& self.intermediate_size > 0
                &&& self.in_channels > 0
                &&& self.patch_size > 0
                &&& self.spatial_merge_size > 0
                &&& self.temporal_patch_size > 0
                &&& self.out_hidden_size > 0
                &&& self.num_heads > 0
                &&& self.hidden_size % self.num_heads == 0
                &&& (self.hidden_size as int / self.num_heads as int) % 4 == 0
                &&& exists|side: usize|
                    side > 0 && #[trigger] (side * side) == self.num_position_embeddings
                &&& self.deepstack_visual_indexes@.len() == 0
            },
    {
    }
}

impl OvisOcr2Config {
    /// The model is sound when it is the known one, its parts are sound, the output
    /// weights are the embeddings by either level, all marker tokens are in the
    /// vocabulary, and what the vision tower hands over is as wide as the decoder.
    pub proof fn law_sound_model_fits_together(self)
        ensures
            self.problem() is None <==> {
                &&& self.model_type@ == "qwen3_5"@
                &&& self.text_config.problem() is None
                &&& self.vision_config.problem() is None
                &&& self.tie_word_embeddings || self.text_config.tie_word_embeddings
                &&& self.image_token_id < self.text_config.vocab_size
                &&& self.video_token_id < self.text_config.vocab_size
                &&& self.vision_start_token_id < self.text_config.vocab_size
                &&& self.vision_end_token_id < self.text_config.vocab_size
                &&& self.vision_config.out_hidden_size == self.text_config.hidden_size
            },
    {
    }
}

impl OvisOcr2ImageProcessorConfig {
    /// The processor is sound when it has finite statistics of three channels, with
    /// deviations above zero where it divides by them, no patch setting is zero, and
    /// the bounds of sizes are in order.
    pub proof fn law_sound_processor_divides_by_no_zero(self)
        ensures
            self.problem() is None <==> {
                &&& self.image_mean@.len() == 3
                &&& self.image_std@.len() == 3
                &&& forall|i: int|
                    0 <= i < 3 ==> (#[trigger] self.image_mean@[i]).spec_finite()
                &&& forall|i: int| 0 <= i < 3 ==> (#[trigger] self.image_std@[i]).spec_finite()
                &&& self.do_normalize ==> forall|i: int|
                    0 <= i < 3 ==> (#[trigger] self.image_std@[i]).spec_positive()
                &&& self.do_rescale ==> self.rescale_factor.spec_finite()
                &&& self.patch_size > 0
                &&& self.merge_size > 0
                &&& self.temporal_patch_size > 0
                &&& 0 < self.size.shortest_edge <= self.size.longest_edge
                &&& self.resample matches Some(r) ==> r <= 5
            },
    {
    }
}

/// Whatever is wrong with the settings is told as a fault of the configuration.
pub proof fn law_faults_are_of_the_configuration(
    cfg: OvisOcr2Config,
    processor: OvisOcr2ImageProcessorConfig,
)
    ensures
        cfg.problem() matches Some(e) ==> e is Config,
        cfg.text_config.problem() matches Some(e) ==> e is Config,
        cfg.vision_config.problem() matches Some(e) ==> e is Config,
        processor.problem() matches Some(Fault::Told(e)) ==> e is Config,
{
}

} // verus!
