//! Configuration of a checkpoint.
use crate::error::{self, Error, ErrorView, Fault, Message};
use crate::float::{Float, ONE_BITS};
use crate::image;
use crate::text;
use crate::tokenizer;
use crate::tokens;
use tokenizers::Tokenizer;
use vstd::prelude::*;

verus! {

/// The generation of a checkpoint. The newer one nests its text configuration.
#[derive(Debug, Clone, Copy, PartialEq, Eq, Structural)]
pub enum HunyuanOcrVersion {
    V1,
    V1_5,
}

impl HunyuanOcrVersion {
    /// The version number.
    pub open spec fn number(self) -> Seq<char> {
        match self {
            HunyuanOcrVersion::V1 => "1.0"@,
            HunyuanOcrVersion::V1_5 => "1.5"@,
        }
    }

    /// The version number as text.
    pub fn text(self) -> (s: &'static str)
        ensures
            s@ == self.number(),
    {
        match self {
            HunyuanOcrVersion::V1 => "1.0",
            HunyuanOcrVersion::V1_5 => "1.5",
        }
    }
}

/// How rotary positions are scaled.
#[derive(Debug, Clone)]
pub struct HunyuanOcrRopeScaling {
    /// The kind of scaling.
    pub kind: Option<String>,
    pub xdrope_section: Vec<usize>,
    pub factor: Option<Float>,
    pub alpha: Option<Float>,
    pub beta_fast: Option<usize>,
    pub beta_slow: Option<usize>,
    pub mscale: Option<Float>,
    pub mscale_all_dim: Option<Float>,
}

/// The vision model.
#[derive(Debug, Clone)]
pub struct HunyuanOcrVisionConfig {
    pub hidden_size: usize,
    pub intermediate_size: usize,
    pub num_attention_heads: usize,
    pub num_hidden_layers: usize,
    pub num_channels: usize,
    pub patch_size: usize,
    pub spatial_merge_size: usize,
    pub rms_norm_eps: Float,
    pub hidden_act: String,
    pub add_patchemb_bias: bool,
    pub cat_extra_token: usize,
    pub max_vit_seq_len: usize,
    pub max_image_size: usize,
    pub img_max_token_num: usize,
    pub interpolate_mode: String,
}

/// The image processor.
#[derive(Debug, Clone)]
pub struct HunyuanOcrImageProcessorConfig {
    pub min_pixels: u32,
    pub max_pixels: u32,
    pub patch_size: usize,
    pub resample: Option<u32>,
    pub temporal_patch_size: usize,
    pub merge_size: usize,
    pub image_mean: Vec<Float>,
    pub image_std: Vec<Float>,
}

impl HunyuanOcrImageProcessorConfig {
    /// The first thing wrong with the processor.
    pub open spec fn problem(self) -> Option<Fault> {
        if image::has_channels(self.image_mean@, self.image_std@) && image::has_patches(
            self.patch_size,
            self.merge_size,
            self.temporal_patch_size,
        ) {
            None
        } else {
            Some(Fault::Config)
        }
    }

    /// Checks the processor.
    pub fn validate(&self) -> (r: Result<(), Error>)
        ensures
            error::finds(self.problem(), r),
    {
        if let Err(e) = image::validate_channels("HunyuanOCR", &self.image_mean, &self.image_std) {
            return Err(e);
        }
        image::validate_patches(
            "HunyuanOCR",
            self.patch_size,
            self.merge_size,
            self.temporal_patch_size,
        )
    }
}

/// The text model and the token ids.
#[derive(Debug, Clone)]
pub struct HunyuanOcrConfig {
    pub hidden_size: usize,
    pub intermediate_size: usize,
    pub num_attention_heads: usize,
    pub num_hidden_layers: usize,
    pub num_key_value_heads: usize,
    pub head_dim: usize,
    pub vocab_size: usize,
    pub rms_norm_eps: Float,
    pub rope_theta: Float,
    pub bos_token_id: u32,
    pub eos_token_id: u32,
    pub eod_token_id: u32,
    pub pad_id: u32,
    pub image_start_token_id: u32,
    pub image_end_token_id: u32,
    pub image_token_id: u32,
    pub image_newline_token_id: u32,
    pub use_qk_norm: bool,
    pub rope_scaling: HunyuanOcrRopeScaling,
    pub vision_config: HunyuanOcrVisionConfig,
    /// Whether the file has a `text_config` object.
    pub has_text_config: bool,
}

impl HunyuanOcrConfig {
    /// The generation of the checkpoint.
    pub fn version(&self) -> (v: HunyuanOcrVersion)
        ensures
            v == if self.has_text_config {
                HunyuanOcrVersion::V1_5
            } else {
                HunyuanOcrVersion::V1
            },
    {
        if self.has_text_config {
            HunyuanOcrVersion::V1_5
        } else {
            HunyuanOcrVersion::V1
        }
    }
}

/// The end-of-text setting of a generation configuration, as its file holds it.
#[derive(Debug)]
pub enum EosSetting {
    /// There is no file, or no setting in it.
    Absent,
    Single(u64),
    /// The entries that are whole numbers; others are `None`.
    List(Vec<Option<u64>>),
    /// Neither a number nor a list.
    Other,
}

/// The entries of a list that are token ids.
pub open spec fn token_entries(list: Seq<Option<u64>>) -> Seq<u32>
    decreases list.len(),
{
    if list.len() == 0 {
        Seq::empty()
    } else {
        let before = token_entries(list.drop_last());
        match list.last() {
            Some(v) => if v <= u32::MAX {
                before.push(v as u32)
            } else {
                before
            },
            None => before,
        }
    }
}

/// The ids that the setting names.
pub open spec fn setting_ids(setting: EosSetting) -> Option<Seq<u32>> {
    match setting {
        EosSetting::Single(v) => if v <= u32::MAX {
            Some(seq![v as u32])
        } else {
            None
        },
        EosSetting::List(list) => Some(token_entries(list@)),
        EosSetting::Absent => None,
        EosSetting::Other => None,
    }
}

/// Reads the ids that the setting names.
pub fn generation_eos_ids(setting: &EosSetting) -> (r: Option<Vec<u32>>)
    ensures
        match r {
            Some(ids) => setting_ids(*setting) == Some(ids@),
            None => setting_ids(*setting) is None,
        },
{
    match setting {
        EosSetting::Single(v) => {
            if *v <= 0xffff_ffff {
                let mut ids: Vec<u32> = Vec::new();
                ids.push(*v as u32);
                proof {
                    assert(ids@ =~= seq![*v as u32]);
                }
                Some(ids)
            } else {
                None
            }
        },
        EosSetting::List(list) => {
            let mut ids: Vec<u32> = Vec::new();
            let mut i: usize = 0;
            proof {
                assert(list@.take(0) =~= Seq::<Option<u64>>::empty());
            }
            while i < list.len()
                invariant
                    i <= list.len(),
                    ids@ == token_entries(list@.take(i as int)),
                decreases list.len() - i,
            {
                proof {
                    assert(list@.take(i + 1).drop_last() =~= list@.take(i as int));
                }
                if let Some(v) = list[i] {
                    if v <= 0xffff_ffff {
                        ids.push(v as u32);
                    }
                }
                i = i + 1;
            }
            proof {
                assert(list@.take(i as int) =~= list@);
            }
            Some(ids)
        },
        EosSetting::Absent => None,
        EosSetting::Other => None,
    }
}

/// All tokens that end a page, before they are ordered.
pub open spec fn stop_candidates(
    cfg: HunyuanOcrConfig,
    assistant: Option<u32>,
    generation: Option<Seq<u32>>,
) -> Seq<u32> {
    seq![cfg.eod_token_id, cfg.eos_token_id] + (match assistant {
        Some(id) => seq![id],
        None => Seq::empty(),
    }) + (match generation {
        Some(ids) => ids,
        None => Seq::empty(),
    })
}

/// The tokens that end a page: those of both configurations and the tokenizer's
/// turn marker.
pub fn stop_token_ids(tokenizer: &Tokenizer, cfg: &HunyuanOcrConfig, setting: &EosSetting) -> (ids: Vec<
    u32,
>)
    ensures
        tokens::is_sorted_set(
            ids@,
            stop_candidates(
                *cfg,
                if tokenizer::vocabulary(*tokenizer).contains_key("<｜hy_Assistant｜>"@) {
                    Some(tokenizer::vocabulary(*tokenizer)["<｜hy_Assistant｜>"@])
                } else {
                    None
                },
                setting_ids(*setting),
            ),
        ),
{
    let assistant = tokenizer::token_to_id(tokenizer, "<｜hy_Assistant｜>");
    merge_stop_ids(cfg, assistant, setting)
}

/// Orders the tokens that end a page, given the id of the turn marker.
pub fn merge_stop_ids(cfg: &HunyuanOcrConfig, assistant: Option<u32>, setting: &EosSetting) -> (ids: Vec<
    u32,
>)
    ensures
        tokens::is_sorted_set(ids@, stop_candidates(*cfg, assistant, setting_ids(*setting))),
{
    let mut all: Vec<u32> = Vec::new();
    all.push(cfg.eod_token_id);
    all.push(cfg.eos_token_id);
    if let Some(id) = assistant {
        all.push(id);
    }
    if let Some(more) = generation_eos_ids(setting) {
        tokens::push_all(&mut all, &more);
    }
    proof {
        assert(all@ =~= stop_candidates(*cfg, assistant, setting_ids(*setting)));
    }
    tokens::sorted_set(&all)
}

/// The first thing wrong with a repetition penalty.
pub open spec fn penalty_problem(penalty: Float) -> Option<ErrorView> {
    if !penalty.spec_finite() || !penalty.spec_at_least_one() {
        Some(
            ErrorView::Config(
                "HunyuanOCR: repetition penalty must be finite and >= 1.0, got "@ + penalty.text@,
            ),
        )
    } else {
        None
    }
}

/// Checks a repetition penalty.
pub fn validate_repetition_penalty(penalty: &Float) -> (r: Result<(), Error>)
    ensures
        error::verdict(penalty_problem(*penalty), r),
{
    if !penalty.is_finite() || !penalty.at_least_one() {
        return Err(
            Message::new("HunyuanOCR: repetition penalty must be finite and >= 1.0, got ").text(
                penalty.text.as_str(),
            ).config(),
        );
    }
    Ok(())
}

/// The bits of the double 1.08.
pub const PENALTY_BITS: u64 = 0x3ff1_47ae_147a_e148;

/// The bits of the repetition penalty of checkpoints that name none.
pub open spec fn default_penalty_bits(version: HunyuanOcrVersion) -> u64 {
    match version {
        HunyuanOcrVersion::V1 => ONE_BITS,
        HunyuanOcrVersion::V1_5 => PENALTY_BITS,
    }
}

/// The repetition penalty of a checkpoint: the one that its generation
/// configuration names, or that of its generation.
pub fn checkpoint_penalty(named: Option<Float>, version: HunyuanOcrVersion) -> (p: Float)
    ensures
        match named {
            Some(f) => p == f,
            None => p.bits == default_penalty_bits(version) && p.text@ == match version {
                HunyuanOcrVersion::V1 => "1"@,
                HunyuanOcrVersion::V1_5 => "1.08"@,
            },
        },
{
    match named {
        Some(f) => f,
        None => match version {
            HunyuanOcrVersion::V1 => Float { bits: ONE_BITS, text: "1".to_owned() },
            HunyuanOcrVersion::V1_5 => Float { bits: PENALTY_BITS, text: "1.08".to_owned() },
        },
    }
}

/// Checks that a draft is loaded for a checkpoint that supports one.
pub fn validate_dflash_version(version: HunyuanOcrVersion) -> (r: Result<(), Error>)
    ensures
        error::verdict(
            if version == HunyuanOcrVersion::V1_5 {
                None
            } else {
                Some(ErrorView::Config("HunyuanOCR: DFlash requires the 1.5 checkpoint"@))
            },
            r,
        ),
{
    match version {
        HunyuanOcrVersion::V1_5 => Ok(()),
        HunyuanOcrVersion::V1 => Err(
            Error::config("HunyuanOCR: DFlash requires the 1.5 checkpoint"),
        ),
    }
}

/// Page parsing options.
#[derive(Debug, Clone)]
pub struct HunyuanOcrParseOptions {
    pub prompt: String,
    pub max_new_tokens: usize,
}

impl Default for HunyuanOcrParseOptions {
    fn default() -> (o: Self)
        ensures
            o.prompt@
                == "Extract all information from the main body of the document image and represent it in markdown format, ignoring headers and footers. Tables should be expressed in HTML format, formulas in the document should be represented using LaTeX format, and the parsing should be organized according to the reading order."@,
            o.max_new_tokens == 16_384,
    {
        HunyuanOcrParseOptions {
            prompt: "Extract all information from the main body of the document image and represent it in markdown format, ignoring headers and footers. Tables should be expressed in HTML format, formulas in the document should be represented using LaTeX format, and the parsing should be organized according to the reading order.".to_owned(),
            max_new_tokens: 16_384,
        }
    }
}

/// The entries of a list that fit a token id are its tokens, in their order; others
/// are passed over.
pub proof fn law_entries_that_fit_are_tokens(front: Seq<Option<u64>>, back: Seq<Option<u64>>, v: u64)
    ensures
        token_entries(front + back) == token_entries(front) + token_entries(back),
        v <= 0xffff_ffff ==> token_entries(seq![Some(v)]) == seq![v as u32],
        v > 0xffff_ffff ==> token_entries(seq![Some(v)]).len() == 0,
        token_entries(seq![None::<u64>]).len() == 0,
    decreases back.len(),
{
    let none: Seq<Option<u64>> = Seq::empty();
    let no_ids: Seq<u32> = Seq::empty();
    assert(seq![Some(v)].drop_last() =~= none);
    assert(seq![None::<u64>].drop_last() =~= none);
    assert(token_entries(none) =~= no_ids);
    assert(no_ids.push(v as u32) =~= seq![v as u32]);
    if back.len() == 0 {
        assert(front + back =~= front);
        assert(token_entries(front) + token_entries(back) =~= token_entries(front));
    } else {
        law_entries_that_fit_are_tokens(front, back.drop_last(), v);
        assert((front + back).drop_last() =~= front + back.drop_last());
        assert((front + back).last() == back.last());
        assert(token_entries(front + back) =~= token_entries(front) + token_entries(back));
    }
}

/// A page ends at the end tokens of the configuration, at the turn marker where there
/// is one, and at the tokens that the generation settings name.
pub proof fn law_page_ends_at_all_end_tokens(
    ids: Seq<u32>,
    cfg: HunyuanOcrConfig,
    assistant: Option<u32>,
    setting: EosSetting,
    t: u32,
)
    requires
        tokens::is_sorted_set(ids, stop_candidates(cfg, assistant, setting_ids(setting))),
    ensures
        ids.contains(t) <==> {
            ||| t == cfg.eod_token_id
            ||| t == cfg.eos_token_id
            ||| assistant == Some(t)
            ||| match setting {
                EosSetting::Single(v) => v == t,
                EosSetting::List(list) => list@.contains(Some(t as u64)),
                _ => false,
            }
        },
{
    let named = match setting_ids(setting) {
        Some(named) => named,
        None => Seq::<u32>::empty(),
    };
    let marker = match assistant {
        Some(id) => seq![id],
        None => Seq::<u32>::empty(),
    };
    let fixed = seq![cfg.eod_token_id, cfg.eos_token_id];
    let all = stop_candidates(cfg, assistant, setting_ids(setting));
    assert(all == fixed + marker + named);
    if let EosSetting::List(list) = setting {
        lemma_token_entries(list@, t);
    }
    if let EosSetting::Single(v) = setting {
        if v <= u32::MAX {
            assert(seq![v as u32][0] == v);
        }
    }
    if all.contains(t) {
        let i = all.index_of(t);
        if i < 2 {
            assert(fixed[i] == t);
        } else if i < 2 + marker.len() {
            assert(marker[i - 2] == t);
        } else {
            assert(named[i - 2 - marker.len()] == t);
        }
    }
    assert(all[0] == cfg.eod_token_id && all[1] == cfg.eos_token_id);
    if assistant == Some(t) {
        assert(all[2] == t);
    }
    if named.contains(t) {
        let i = named.index_of(t);
        assert(all[2 + marker.len() + i] == t);
    }
}

/// A token is read from a list exactly when an entry of it is that token.
proof fn lemma_token_entries(list: Seq<Option<u64>>, t: u32)
    ensures
        token_entries(list).contains(t) <==> list.contains(Some(t as u64)),
    decreases list.len(),
{
    if list.len() > 0 {
        let front = list.drop_last();
        lemma_token_entries(front, t);
        let before = token_entries(front);
        if list.contains(Some(t as u64)) {
            let i = list.index_of(Some(t as u64));
            if i < front.len() {
                assert(front[i] == Some(t as u64));
                let k = before.index_of(t);
                assert(token_entries(list)[k] == t);
            } else {
                assert(token_entries(list)[before.len() as int] == t);
            }
        }
        if token_entries(list).contains(t) {
            let k = token_entries(list).index_of(t);
            if k < before.len() {
                assert(before[k] == t);
                let i = front.index_of(Some(t as u64));
                assert(list[i] == Some(t as u64));
            } else {
                assert(list[list.len() - 1] == Some(t as u64));
            }
        }
    }
}

/// A repetition penalty is sound when it is a finite number that is not below 1. The
/// penalty of checkpoints that name none is sound: 1, or the double nearest to 1.08.
pub proof fn law_sound_penalty_lowers_nothing_raised(penalty: Float, version: HunyuanOcrVersion)
    ensures
        penalty_problem(penalty) is None <==> 0x3ff0_0000_0000_0000 <= penalty.bits
            < 0x7ff0_0000_0000_0000,
        version is V1 ==> default_penalty_bits(version) == 0x3ff0_0000_0000_0000,
        version is V1_5 ==> ({
            let significand = default_penalty_bits(version) - 0x3ff0_0000_0000_0000
                + 0x10_0000_0000_0000;
            -25 <= 2 * (25 * significand - 27 * 0x10_0000_0000_0000) <= 25
        }),
{
}

impl HunyuanOcrImageProcessorConfig {
    /// The processor is sound when it has statistics of three channels and no patch
    /// setting is zero.
    pub proof fn law_sound_processor_has_three_channels(self)
        ensures
            self.problem() is None <==> {
                &&& self.image_mean@.len() == 3
                &&& self.image_std@.len() == 3
                &&& self.patch_size > 0
                &&& self.merge_size > 0
                &&& self.temporal_patch_size > 0
            },
    {
    }
}

} // verus!
