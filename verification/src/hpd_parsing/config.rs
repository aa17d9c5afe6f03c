//! Configuration of a checkpoint.
use crate::error::{self, Error, ErrorView, Fault, Message};
use crate::float::Float;
use crate::sdar::SdarConfig;
use crate::text;
use vstd::prelude::*;

verus! {

/// The vision tower.
#[derive(Debug, Clone)]
pub struct HpdVisionConfig {
    pub hidden_size: usize,
    pub intermediate_size: usize,
    pub num_hidden_layers: usize,
    pub num_attention_heads: usize,
    pub num_channels: usize,
    pub image_size: usize,
    pub patch_size: usize,
    pub layer_norm_eps: Float,
    pub hidden_act: String,
    pub qkv_bias: bool,
    pub norm_type: String,
}

/// The number of colour channels where none is configured.
pub fn default_channels() -> (n: usize)
    ensures
        n == 3,
{
    3
}

/// The activation where none is configured.
pub fn default_act() -> (s: String)
    ensures
        s@ == "gelu"@,
{
    "gelu".to_owned()
}

/// The normalization where none is configured.
pub fn default_norm() -> (s: String)
    ensures
        s@ == "layer_norm"@,
{
    "layer_norm".to_owned()
}

/// The least number of tiles where none is configured.
pub fn default_min_patches() -> (n: usize)
    ensures
        n == 1,
{
    1
}

/// The greatest number of tiles where none is configured.
pub fn default_max_patches() -> (n: usize)
    ensures
        n == 24,
{
    24
}

/// The whole model.
#[derive(Debug, Clone)]
pub struct HpdParsingConfig {
    pub vision_config: HpdVisionConfig,
    pub llm_config: SdarConfig,
    pub downsample_ratio: Float,
    pub force_image_size: usize,
    pub min_dynamic_patch: usize,
    pub max_dynamic_patch: usize,
    pub use_thumbnail: bool,
    pub fork_token_id: u32,
    pub child_token_id: u32,
    pub eos_token_id: u32,
    pub pad_token_id: u32,
}

impl HpdParsingConfig {
    /// How many patches of a row become one image token.
    pub open spec fn downsample(self) -> int {
        self.downsample_ratio.spec_reciprocal()
    }

    /// The side of a tile, in patches.
    pub open spec fn grid(self) -> int {
        self.force_image_size as int / self.vision_config.patch_size as int
    }

    /// The side of a tile in merged patches is squared; this has to fit.
    pub open spec fn tokens_fit(self) -> bool {
        self.downsample() > 0 && self.grid() % self.downsample() == 0 ==> (self.grid()
            / self.downsample()) * (self.grid() / self.downsample()) <= usize::MAX
    }

    /// The number of image tokens of one tile.
    pub open spec fn spec_image_tokens_per_tile(self) -> Result<usize, ErrorView> {
        if self.downsample() == 0 || self.grid() % self.downsample() != 0 {
            Err(
                ErrorView::Config(
                    "HPD-Parsing patch grid "@ + text::dec(self.grid() as nat)
                        + " is incompatible with downsample_ratio "@ + self.downsample_ratio.text@,
                ),
            )
        } else {
            let side = self.grid() / self.downsample();
            Ok((side * side) as usize)
        }
    }

    /// The number of image tokens of one tile.
    pub fn image_tokens_per_tile(&self) -> (r: Result<usize, Error>)
        requires
            self.vision_config.patch_size > 0,
            self.tokens_fit(),
        ensures
            error::tells(r, self.spec_image_tokens_per_tile()),
    {
        let grid: usize = self.force_image_size / self.vision_config.patch_size;
        let downsample: usize = self.downsample_ratio.reciprocal();
        if downsample == 0 || grid % downsample != 0 {
            return Err(
                Message::new("HPD-Parsing patch grid ").num(grid as u64).text(
                    " is incompatible with downsample_ratio ",
                ).text(self.downsample_ratio.text.as_str()).config(),
            );
        }
        let side: usize = grid / downsample;
        Ok(side * side)
    }

    /// A dimension or a limit is missing or out of order.
    pub open spec fn bad_dimensions(self) -> bool {
        let vision = self.vision_config;
        ||| vision.hidden_size == 0
        ||| vision.intermediate_size == 0
        ||| vision.num_hidden_layers == 0
        ||| vision.num_attention_heads == 0
        ||| vision.patch_size == 0
        ||| self.force_image_size == 0
        ||| self.min_dynamic_patch == 0
        ||| self.max_dynamic_patch < self.min_dynamic_patch
    }

    /// The tiles are no RGB squares that split into heads and patches.
    pub open spec fn bad_tiles(self) -> bool {
        let vision = self.vision_config;
        ||| vision.num_channels != 3
        ||| self.force_image_size != vision.image_size
        ||| vision.hidden_size % vision.num_attention_heads != 0
        ||| self.force_image_size % vision.patch_size != 0
    }

    /// The first thing wrong with the dimensions and the networks.
    pub open spec fn shape_problem(self) -> Option<Fault> {
        let vision = self.vision_config;
        if self.bad_dimensions() {
            Some(
                Fault::Told(ErrorView::Config(
                    "HPD-Parsing dimensions and patch limits must be non-zero and ordered"@,
                )),
            )
        } else if self.bad_tiles() {
            Some(
                Fault::Told(ErrorView::Config(
                    "HPD-Parsing requires RGB square InternViT tiles with a valid head/patch split"@,
                )),
            )
        } else if vision.hidden_act@ != "gelu"@ || vision.norm_type@ != "layer_norm"@ {
            Some(
                Fault::Told(ErrorView::Config(
                    "HPD-Parsing unsupported InternViT activation/norm: "@ + vision.hidden_act@
                        + "/"@ + vision.norm_type@,
                )),
            )
        } else if !self.downsample_ratio.spec_in_unit() {
            Some(Fault::Told(ErrorView::Config("HPD-Parsing downsample_ratio must be in (0, 1]"@)))
        } else if self.llm_config.spec_head_dim() is None {
            Some(Fault::Config)
        } else {
            None
        }
    }

    /// The first thing wrong with the configuration.
    pub open spec fn problem(self) -> Option<Fault> {
        if self.shape_problem() is Some {
            self.shape_problem()
        } else if let Err(e) = self.spec_image_tokens_per_tile() {
            Some(Fault::Told(e))
        } else {
            None
        }
    }

    /// Checks the configuration.
    pub fn validate(&self) -> (r: Result<(), Error>)
        requires
            self.shape_problem() is None ==> self.tokens_fit(),
        ensures
            error::finds(self.problem(), r),
    {
        let vision = &self.vision_config;
        if vision.hidden_size == 0 || vision.intermediate_size == 0 || vision.num_hidden_layers == 0
            || vision.num_attention_heads == 0 || vision.patch_size == 0 || self.force_image_size
            == 0 || self.min_dynamic_patch == 0 || self.max_dynamic_patch
            < self.min_dynamic_patch {
            return Err(
                Error::config(
                    "HPD-Parsing dimensions and patch limits must be non-zero and ordered",
                ),
            );
        }
        if vision.num_channels != 3 || self.force_image_size != vision.image_size
            || vision.hidden_size % vision.num_attention_heads != 0 || self.force_image_size
            % vision.patch_size != 0 {
            return Err(
                Error::config(
                    "HPD-Parsing requires RGB square InternViT tiles with a valid head/patch split",
                ),
            );
        }
        if !text::same(vision.hidden_act.as_str(), "gelu") || !text::same(
            vision.norm_type.as_str(),
            "layer_norm",
        ) {
            return Err(
                Message::new("HPD-Parsing unsupported InternViT activation/norm: ").text(
                    vision.hidden_act.as_str(),
                ).text("/").text(vision.norm_type.as_str()).config(),
            );
        }
        if !self.downsample_ratio.in_unit() {
            return Err(Error::config("HPD-Parsing downsample_ratio must be in (0, 1]"));
        }
        if let Err(e) = self.llm_config.head_dim() {
            return Err(e);
        }
        if let Err(e) = self.image_tokens_per_tile() {
            return Err(e);
        }
        Ok(())
    }
}

impl HpdParsingConfig {
    /// A tile of `side * downsample` patches a side has `side * side` image tokens; one
    /// that blocks do not fill has none.
    pub proof fn law_blocks_of_a_tile_become_tokens(self, side: int)
        requires
            self.vision_config.patch_size > 0,
            0 <= side * side <= usize::MAX,
            0 <= side,
        ensures
            self.downsample() > 0 && self.force_image_size == side * self.downsample()
                * self.vision_config.patch_size ==> self.spec_image_tokens_per_tile() == Ok::<
                usize,
                ErrorView,
            >((side * side) as usize),
            self.downsample() == 0 ==> self.spec_image_tokens_per_tile() is Err,
            self.downsample() > 0 && self.grid() % self.downsample() != 0
                ==> self.spec_image_tokens_per_tile() is Err,
    {
        let d = self.downsample();
        let p = self.vision_config.patch_size as int;
        if d > 0 && self.force_image_size == side * d * p {
            vstd::arithmetic::div_mod::lemma_fundamental_div_mod_converse(
                self.force_image_size as int,
                p,
                side * d,
                0,
            );
            vstd::arithmetic::div_mod::lemma_fundamental_div_mod_converse(side * d, d, side, 0);
        }
    }

    /// The configuration is sound when no dimension is zero, the limits of tiles are
    /// in order, tiles are RGB squares of whole patches whose heads share the hidden
    /// size evenly, the networks are the known ones, and blocks fill a tile.
    pub proof fn law_sound_configuration_fills_its_tiles(self)
        ensures
            self.problem() is None <==> {
                let vision = self.vision_config;
                &&& vision.hidden_size > 0
                &&& vision.intermediate_size > 0
                &&& vision.num_hidden_layers > 0
                &&& vision.num_attention_heads > 0
                &&& vision.patch_size > 0
                &&& self.force_image_size > 0
                &&& 0 < self.min_dynamic_patch <= self.max_dynamic_patch
                &&& vision.num_channels == 3
                &&& self.force_image_size == vision.image_size
                &&& vision.hidden_size % vision.num_attention_heads == 0
                &&& self.force_image_size % vision.patch_size == 0
                &&& vision.hidden_act@ == "gelu"@
                &&& vision.norm_type@ == "layer_norm"@
                &&& self.downsample_ratio.spec_in_unit()
                &&& self.llm_config.spec_head_dim() is Some
                &&& self.downsample() != 0
                &&& self.grid() % self.downsample() == 0
            },
    {
    }
}

/// Whatever is wrong with the settings is told as a fault of the configuration.
pub proof fn law_faults_are_of_the_configuration(cfg: HpdParsingConfig)
    ensures
        cfg.problem() matches Some(Fault::Told(e)) ==> e is Config,
        cfg.spec_image_tokens_per_tile() matches Err(e) ==> e is Config,
{
}

} // verus!
