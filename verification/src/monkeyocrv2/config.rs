//! Configuration of a checkpoint.
use crate::error::{self, Error, ErrorView, Fault, Message};
use crate::float::Float;
use crate::image;
use crate::numbers;
use crate::sdar::SdarConfig;
use crate::text;
use vstd::prelude::*;

verus! {

/// The number of channels of a checkpoint that does not say.
pub fn default_num_channels() -> (n: usize)
    ensures
        n == 3,
{
    3
}

/// The vision tower.
#[derive(Debug, Clone)]
pub struct MonkeyOcrV2VisionConfig {
    pub embed_dim: usize,
    pub hidden_size: usize,
    pub intermediate_size: usize,
    pub num_hidden_layers: usize,
    pub num_attention_heads: usize,
    pub num_channels: usize,
    pub patch_size: usize,
    pub spatial_merge_size: usize,
    pub temporal_patch_size: usize,
    pub rms_norm_eps: Float,
    pub use_bias: bool,
    pub post_norm: bool,
}

impl MonkeyOcrV2VisionConfig {
    /// The size of one head.
    pub open spec fn spec_head_dim(self) -> Result<usize, ErrorView> {
        if self.num_attention_heads == 0 || self.embed_dim % self.num_attention_heads != 0 {
            Err(
                ErrorView::Config(
                    "MonkeyOCRv2 vision embed_dim "@ + text::dec(self.embed_dim as nat)
                        + " must be divisible by num_attention_heads "@ + text::dec(
                        self.num_attention_heads as nat,
                    ),
                ),
            )
        } else {
            Ok((self.embed_dim / self.num_attention_heads) as usize)
        }
    }

    /// The size of one head.
    pub fn head_dim(&self) -> (r: Result<usize, Error>)
        ensures
            error::tells(r, self.spec_head_dim()),
    {
        if self.num_attention_heads == 0 || self.embed_dim % self.num_attention_heads != 0 {
            return Err(
                Message::new("MonkeyOCRv2 vision embed_dim ").num(self.embed_dim as u64).text(
                    " must be divisible by num_attention_heads ",
                ).num(self.num_attention_heads as u64).config(),
            );
        }
        Ok(self.embed_dim / self.num_attention_heads)
    }

    /// A dimension is missing.
    pub open spec fn lacks_dimension(self) -> bool {
        ||| self.embed_dim == 0
        ||| self.hidden_size == 0
        ||| self.intermediate_size == 0
        ||| self.num_hidden_layers == 0
        ||| self.patch_size == 0
        ||| self.spatial_merge_size == 0
        ||| self.temporal_patch_size == 0
    }

    /// The first thing wrong with the vision tower.
    pub open spec fn problem(self) -> Option<ErrorView> {
        if self.lacks_dimension() {
            Some(ErrorView::Config("MonkeyOCRv2 vision dimensions must be non-zero"@))
        } else if self.num_channels != 3 {
            Some(
                ErrorView::Config(
                    "MonkeyOCRv2 currently supports RGB checkpoints, got num_channels="@
                        + text::dec(self.num_channels as nat),
                ),
            )
        } else if self.temporal_patch_size != 1 {
            Some(
                ErrorView::Config(
                    "MonkeyOCRv2 image checkpoints require temporal_patch_size=1, got "@
                        + text::dec(self.temporal_patch_size as nat),
                ),
            )
        } else if self.use_bias {
            Some(
                ErrorView::Config(
                    "MonkeyOCRv2 vision transformer use_bias=true is unsupported"@,
                ),
            )
        } else if self.spec_head_dim() is Err {
            Some(self.spec_head_dim()->Err_0)
        } else if self.spec_head_dim()->Ok_0 % 4 != 0 {
            Some(
                ErrorView::Config(
                    "MonkeyOCRv2 vision head_dim "@ + text::dec(
                        self.spec_head_dim()->Ok_0 as nat,
                    ) + " must be divisible by 4 for 2D RoPE"@,
                ),
            )
        } else if !self.rms_norm_eps.spec_finite() || !self.rms_norm_eps.spec_positive() {
            Some(
                ErrorView::Config(
                    "MonkeyOCRv2 vision rms_norm_eps must be positive, got "@
                        + self.rms_norm_eps.text@,
                ),
            )
        } else {
            None
        }
    }

    /// Checks the vision tower.
    pub fn validate(&self) -> (r: Result<(), Error>)
        ensures
            error::verdict(self.problem(), r),
    {
        if self.embed_dim == 0 || self.hidden_size == 0 || self.intermediate_size == 0
            || self.num_hidden_layers == 0 || self.patch_size == 0 || self.spatial_merge_size == 0
            || self.temporal_patch_size == 0 {
            return Err(Error::config("MonkeyOCRv2 vision dimensions must be non-zero"));
        }
        if self.num_channels != 3 {
            return Err(
                Message::new("MonkeyOCRv2 currently supports RGB checkpoints, got num_channels=").num(
                    self.num_channels as u64,
                ).config(),
            );
        }
        if self.temporal_patch_size != 1 {
            return Err(
                Message::new(
                    "MonkeyOCRv2 image checkpoints require temporal_patch_size=1, got ",
                ).num(self.temporal_patch_size as u64).config(),
            );
        }
        if self.use_bias {
            return Err(
                Error::config("MonkeyOCRv2 vision transformer use_bias=true is unsupported"),
            );
        }
        let head_dim: usize = match self.head_dim() {
            Ok(head_dim) => head_dim,
            Err(e) => return Err(e),
        };
        if head_dim % 4 != 0 {
            return Err(
                Message::new("MonkeyOCRv2 vision head_dim ").num(head_dim as u64).text(
                    " must be divisible by 4 for 2D RoPE",
                ).config(),
            );
        }
        if !self.rms_norm_eps.is_finite() || !self.rms_norm_eps.is_positive() {
            return Err(
                Message::new("MonkeyOCRv2 vision rms_norm_eps must be positive, got ").text(
                    self.rms_norm_eps.text.as_str(),
                ).config(),
            );
        }
        Ok(())
    }
}

/// The whole model.
#[derive(Debug, Clone)]
pub struct MonkeyOcrV2Config {
    pub text_config: SdarConfig,
    pub vision_config: MonkeyOcrV2VisionConfig,
    pub image_token_id: u32,
    pub video_token_id: u32,
    pub model_type: String,
}

impl MonkeyOcrV2Config {
    /// A dimension of the text decoder is missing.
    pub open spec fn lacks_text_dimension(self) -> bool {
        ||| self.text_config.vocab_size == 0
        ||| self.text_config.hidden_size == 0
        ||| self.text_config.num_hidden_layers == 0
        ||| self.text_config.num_attention_heads == 0
        ||| self.text_config.num_key_value_heads == 0
        ||| self.text_config.max_position_embeddings == 0
    }

    /// The first thing wrong with the text decoder.
    pub open spec fn text_problem(self) -> Option<Fault> {
        let cfg = self.text_config;
        if cfg.hidden_act@ != "silu"@ {
            Some(
                Fault::Told(ErrorView::Config(
                    "MonkeyOCRv2 supports Qwen3 hidden_act 'silu', got '"@ + cfg.hidden_act@
                        + "'"@,
                )),
            )
        } else if cfg.attention_bias {
            Some(Fault::Told(ErrorView::Config("MonkeyOCRv2 attention_bias=true is unsupported"@)))
        } else if self.lacks_text_dimension() {
            Some(Fault::Told(ErrorView::Config("MonkeyOCRv2 text dimensions must be non-zero"@)))
        } else if cfg.spec_head_dim() is None {
            Some(Fault::Config)
        } else if cfg.spec_head_dim()->0 == 0 {
            Some(Fault::Told(ErrorView::Config("MonkeyOCRv2 text head_dim must be non-zero"@)))
        } else if !numbers::multiple(cfg.num_attention_heads, cfg.num_key_value_heads) {
            Some(
                Fault::Told(ErrorView::Config("MonkeyOCRv2 attention heads must be divisible by KV heads"@)),
            )
        } else {
            None
        }
    }

    /// Checks the text decoder.
    fn validate_text(&self) -> (r: Result<(), Error>)
        ensures
            error::finds(self.text_problem(), r),
    {
        let cfg = &self.text_config;
        if !text::same(cfg.hidden_act.as_str(), "silu") {
            return Err(
                Message::new("MonkeyOCRv2 supports Qwen3 hidden_act 'silu', got '").text(
                    cfg.hidden_act.as_str(),
                ).text("'").config(),
            );
        }
        if cfg.attention_bias {
            return Err(Error::config("MonkeyOCRv2 attention_bias=true is unsupported"));
        }
        if cfg.vocab_size == 0 || cfg.hidden_size == 0 || cfg.num_hidden_layers == 0
            || cfg.num_attention_heads == 0 || cfg.num_key_value_heads == 0
            || cfg.max_position_embeddings == 0 {
            return Err(Error::config("MonkeyOCRv2 text dimensions must be non-zero"));
        }
        let head_dim: usize = match cfg.head_dim() {
            Ok(head_dim) => head_dim,
            Err(e) => return Err(e),
        };
        if head_dim == 0 {
            return Err(Error::config("MonkeyOCRv2 text head_dim must be non-zero"));
        }
        if !numbers::is_multiple(cfg.num_attention_heads, cfg.num_key_value_heads) {
            return Err(
                Error::config("MonkeyOCRv2 attention heads must be divisible by KV heads"),
            );
        }
        Ok(())
    }

    /// The first thing wrong with the model.
    pub open spec fn problem(self) -> Option<Fault> {
        if self.model_type@ != "monkeyocrv2"@ {
            Some(
                Fault::Told(ErrorView::Config(
                    "MonkeyOCRv2 expected model_type 'monkeyocrv2', got '"@ + self.model_type@
                        + "'"@,
                )),
            )
        } else if self.text_problem() is Some {
            self.text_problem()
        } else if self.text_config.hidden_size != self.vision_config.hidden_size {
            Some(
                Fault::Told(ErrorView::Config(
                    "MonkeyOCRv2 vision merger output "@ + text::dec(
                        self.vision_config.hidden_size as nat,
                    ) + " != text hidden size "@ + text::dec(self.text_config.hidden_size as nat),
                )),
            )
        } else {
            error::told(self.vision_config.problem())
        }
    }

    /// Checks the model.
    pub fn validate(&self) -> (r: Result<(), Error>)
        ensures
            error::finds(self.problem(), r),
    {
        if !text::same(self.model_type.as_str(), "monkeyocrv2") {
            return Err(
                Message::new("MonkeyOCRv2 expected model_type 'monkeyocrv2', got '").text(
                    self.model_type.as_str(),
                ).text("'").config(),
            );
        }
        if let Err(e) = self.validate_text() {
            return Err(e);
        }
        if self.text_config.hidden_size != self.vision_config.hidden_size {
            return Err(
                Message::new("MonkeyOCRv2 vision merger output ").num(
                    self.vision_config.hidden_size as u64,
                ).text(" != text hidden size ").num(self.text_config.hidden_size as u64).config(),
            );
        }
        self.vision_config.validate()
    }
}

/// The image processor.
#[derive(Debug, Clone)]
pub struct MonkeyOcrV2ImageProcessorConfig {
    pub min_pixels: u32,
    pub max_pixels: u32,
    pub patch_size: usize,
    pub temporal_patch_size: usize,
    pub merge_size: usize,
    pub image_mean: Vec<Float>,
    pub image_std: Vec<Float>,
    pub do_resize: bool,
    pub do_rescale: bool,
    pub do_normalize: bool,
    pub rescale_factor: Float,
    pub resample: Option<u32>,
}

/// Some value of a list is zero.
pub open spec fn some_zero(list: Seq<Float>) -> bool {
    exists|i: int| 0 <= i < list.len() && (#[trigger] list[i]).spec_zero()
}

/// Decides [`some_zero`].
fn has_zero(list: &Vec<Float>) -> (r: bool)
    ensures
        r == some_zero(list@),
{
    let mut i: usize = 0;
    while i < list.len()
        invariant
            i <= list.len(),
            forall|j: int| 0 <= j < i ==> !(#[trigger] list@[j]).spec_zero(),
        decreases list.len() - i,
    {
        if list[i].is_zero() {
            proof {
                assert(list@[i as int].spec_zero());
            }
            return true;
        }
        i = i + 1;
    }
    false
}

impl MonkeyOcrV2ImageProcessorConfig {
    /// The first thing wrong with the channel statistics, which count only where
    /// pixels are normalised.
    pub open spec fn statistics_problem(self) -> Option<Fault> {
        if !self.do_normalize {
            None
        } else if !image::has_channels(self.image_mean@, self.image_std@) {
            Some(Fault::Config)
        } else if some_zero(self.image_std@) {
            Some(Fault::Told(ErrorView::Config("MonkeyOCRv2 image_std values must be non-zero"@)))
        } else {
            None
        }
    }

    /// The first thing wrong with the processor.
    pub open spec fn problem(self) -> Option<Fault> {
        if !image::has_patches(self.patch_size, self.merge_size, self.temporal_patch_size) {
            Some(Fault::Config)
        } else if self.min_pixels == 0 || self.max_pixels == 0 || self.min_pixels
            > self.max_pixels {
            Some(
                Fault::Told(
                    ErrorView::Config(
                        "MonkeyOCRv2 invalid pixel bounds: "@ + text::dec(self.min_pixels as nat)
                            + ".."@ + text::dec(self.max_pixels as nat),
                    ),
                ),
            )
        } else {
            self.statistics_problem()
        }
    }

    /// Checks the processor.
    pub fn validate(&self) -> (r: Result<(), Error>)
        ensures
            error::finds(self.problem(), r),
    {
        if let Err(e) = image::validate_patches(
            "MonkeyOCRv2",
            self.patch_size,
            self.merge_size,
            self.temporal_patch_size,
        ) {
            return Err(e);
        }
        if self.min_pixels == 0 || self.max_pixels == 0 || self.min_pixels > self.max_pixels {
            return Err(
                Message::new("MonkeyOCRv2 invalid pixel bounds: ").num(
                    self.min_pixels as u64,
                ).text("..").num(self.max_pixels as u64).config(),
            );
        }
        if self.do_normalize {
            if let Err(e) = image::validate_channels(
                "MonkeyOCRv2",
                &self.image_mean,
                &self.image_std,
            ) {
                return Err(e);
            }
            if has_zero(&self.image_std) {
                return Err(Error::config("MonkeyOCRv2 image_std values must be non-zero"));
            }
        }
        Ok(())
    }

    /// What is wrong where the processor and the vision tower disagree.
    pub open spec fn vision_problem(self, vision: MonkeyOcrV2VisionConfig) -> Option<ErrorView> {
        if self.patch_size != vision.patch_size || self.temporal_patch_size
            != vision.temporal_patch_size || self.merge_size != vision.spatial_merge_size {
            Some(
                ErrorView::Config(
                    "MonkeyOCRv2 processor/vision mismatch: patch "@ + text::dec(
                        self.patch_size as nat,
                    ) + "/"@ + text::dec(vision.patch_size as nat) + ", temporal "@ + text::dec(
                        self.temporal_patch_size as nat,
                    ) + "/"@ + text::dec(vision.temporal_patch_size as nat) + ", merge "@
                        + text::dec(self.merge_size as nat) + "/"@ + text::dec(
                        vision.spatial_merge_size as nat,
                    ),
                ),
            )
        } else {
            None
        }
    }

    /// Checks that the processor and the vision tower agree.
    pub fn validate_vision(&self, vision: &MonkeyOcrV2VisionConfig) -> (r: Result<(), Error>)
        ensures
            error::verdict(self.vision_problem(*vision), r),
    {
        if self.patch_size != vision.patch_size || self.temporal_patch_size
            != vision.temporal_patch_size || self.merge_size != vision.spatial_merge_size {
            return Err(
                Message::new("MonkeyOCRv2 processor/vision mismatch: patch ").num(
                    self.patch_size as u64,
                ).text("/").num(vision.patch_size as u64).text(", temporal ").num(
                    self.temporal_patch_size as u64,
                ).text("/").num(vision.temporal_patch_size as u64).text(", merge ").num(
                    self.merge_size as u64,
                ).text("/").num(vision.spatial_merge_size as u64).config(),
            );
        }
        Ok(())
    }
}

impl MonkeyOcrV2VisionConfig {
    /// The vision tower is sound when no dimension is zero, it takes single RGB images
    /// without biases, heads share the width evenly in whole fours, and its epsilon is
    /// finite and positive.
    pub proof fn law_sound_tower_takes_single_images(self)
        ensures
            self.problem() is None <==> {
                &&& self.embed_dim > 0
                &&& self.hidden_size > 0
                &&& self.intermediate_size > 0
                &&& self.num_hidden_layers > 0
                &&& self.patch_size > 0
                &&& self.spatial_merge_size > 0
                &&& self.temporal_patch_size == 1
                &&& self.num_channels == 3
                &&& !self.use_bias
                &&& self.num_attention_heads > 0
                &&& self.embed_dim % self.num_attention_heads == 0
                &&& (self.embed_dim as int / self.num_attention_heads as int) % 4 == 0
                &&& self.rms_norm_eps.spec_finite()
                &&& self.rms_norm_eps.spec_positive()
            },
    {
    }
}

impl MonkeyOcrV2Config {
    /// The model is sound when it is the known one, the decoder is the known network
    /// without zero dimensions whose query heads are some number of times its key
    /// heads, and the vision tower is sound and as wide.
    pub proof fn law_sound_model_fits_together(self)
        ensures
            self.problem() is None <==> {
                let cfg = self.text_config;
                &&& self.model_type@ == "monkeyocrv2"@
                &&& cfg.hidden_act@ == "silu"@
                &&& !cfg.attention_bias
                &&& cfg.vocab_size > 0
                &&& cfg.hidden_size > 0
                &&& cfg.num_hidden_layers > 0
                &&& cfg.num_attention_heads > 0
                &&& cfg.num_key_value_heads > 0
                &&& cfg.max_position_embeddings > 0
                &&& cfg.spec_head_dim() matches Some(d) && d > 0
                &&& exists|k: int| cfg.num_attention_heads == #[trigger] (k
                    * cfg.num_key_value_heads)
                &&& cfg.hidden_size == self.vision_config.hidden_size
                &&& self.vision_config.problem() is None
            },
    {
        numbers::law_multiple_is_a_product(
            self.text_config.num_attention_heads,
            self.text_config.num_key_value_heads,
        );
    }
}

impl MonkeyOcrV2ImageProcessorConfig {
    /// The processor is sound when no patch setting is zero, the bounds of areas are in
    /// order and, where pixels are normalised, there are statistics of three channels
    /// without a deviation of zero.
    pub proof fn law_sound_processor_divides_by_no_zero(self)
        ensures
            self.problem() is None <==> {
                &&& self.patch_size > 0
                &&& self.merge_size > 0
                &&& self.temporal_patch_size > 0
                &&& 0 < self.min_pixels <= self.max_pixels
                &&& self.do_normalize ==> {
                    &&& self.image_mean@.len() == 3
                    &&& self.image_std@.len() == 3
                    &&& forall|i: int|
                        0 <= i < 3 ==> !(#[trigger] self.image_std@[i]).spec_zero()
                }
            },
    {
    }

    /// The processor and the vision tower agree when they cut the same patches, in
    /// space and in time, and merge the same blocks.
    pub proof fn law_agreement_is_on_patches(self, vision: MonkeyOcrV2VisionConfig)
        ensures
            self.vision_problem(vision) is None <==> {
                &&& self.patch_size == vision.patch_size
                &&& self.temporal_patch_size == vision.temporal_patch_size
                &&& self.merge_size == vision.spatial_merge_size
            },
    {
    }
}

/// Whatever is wrong with the settings is told as a fault of the configuration.
pub proof fn law_faults_are_of_the_configuration(
    cfg: MonkeyOcrV2Config,
    processor: MonkeyOcrV2ImageProcessorConfig,
)
    ensures
        cfg.problem() matches Some(Fault::Told(e)) ==> e is Config,
        cfg.vision_config.problem() matches Some(e) ==> e is Config,
        processor.problem() matches Some(Fault::Told(e)) ==> e is Config,
        processor.vision_problem(cfg.vision_config) matches Some(e) ==> e is Config,
{
}

} // verus!
