//! The text decoder's layers, rotary axes and convolution windows.
use super::config::OvisOcr2TextConfig;
use crate::error::{self, Error, ErrorView, Message};
use crate::numbers;
use crate::text;
use vstd::prelude::*;

verus! {

/// What mixes the tokens of a layer.
#[derive(Debug, Clone, Copy, PartialEq, Eq, Structural)]
pub enum TokenMixer {
    Linear,
    Full,
}

/// The mixer of a layer kind.
pub fn token_mixer(layer_type: &str) -> (r: Result<TokenMixer, Error>)
    ensures
        error::tells(
            r,
            if layer_type@ == "linear_attention"@ {
                Ok(TokenMixer::Linear)
            } else if layer_type@ == "full_attention"@ {
                Ok(TokenMixer::Full)
            } else {
                Err(
                    ErrorView::Config(
                        "OvisOCR2: unsupported decoder layer type '"@ + layer_type@ + "'"@,
                    ),
                )
            },
        ),
{
    if text::same(layer_type, "linear_attention") {
        Ok(TokenMixer::Linear)
    } else if text::same(layer_type, "full_attention") {
        Ok(TokenMixer::Full)
    } else {
        Err(
            Message::new("OvisOCR2: unsupported decoder layer type '").text(layer_type).text(
                "'",
            ).config(),
        )
    }
}

/// The widths of a linear-attention layer.
#[derive(Debug, Clone, Copy, PartialEq, Eq, Structural)]
pub struct LinearShape {
    pub key_dim: usize,
    pub value_dim: usize,
    pub conv_dim: usize,
    /// How often each key head is repeated.
    pub repeat: usize,
}

/// The widths of the linear-attention layers, or the first thing wrong with them.
pub open spec fn linear_shape_of(cfg: OvisOcr2TextConfig) -> Result<LinearShape, ErrorView> {
    let key_dim = cfg.linear_num_key_heads * cfg.linear_key_head_dim;
    let value_dim = cfg.linear_num_value_heads * cfg.linear_value_head_dim;
    if !numbers::multiple(cfg.linear_num_value_heads, cfg.linear_num_key_heads) {
        Err(
            ErrorView::Config(
                "OvisOCR2: linear_num_value_heads ("@ + text::dec(
                    cfg.linear_num_value_heads as nat,
                ) + ") must be divisible by linear_num_key_heads ("@ + text::dec(
                    cfg.linear_num_key_heads as nat,
                ) + ")"@,
            ),
        )
    } else if cfg.linear_key_head_dim != cfg.linear_value_head_dim {
        Err(
            ErrorView::Config(
                "OvisOCR2 currently requires equal Gated DeltaNet key/value head dims, got "@
                    + text::dec(cfg.linear_key_head_dim as nat) + "/"@ + text::dec(
                    cfg.linear_value_head_dim as nat,
                ),
            ),
        )
    } else {
        Ok(
            LinearShape {
                key_dim: key_dim as usize,
                value_dim: value_dim as usize,
                conv_dim: (key_dim * 2 + value_dim) as usize,
                repeat: (cfg.linear_num_value_heads / cfg.linear_num_key_heads) as usize,
            },
        )
    }
}

/// The widths of the linear-attention layers.
pub fn linear_shape(cfg: &OvisOcr2TextConfig) -> (r: Result<LinearShape, Error>)
    requires
        cfg.linear_num_key_heads > 0 || cfg.linear_num_value_heads > 0
            || cfg.linear_key_head_dim != cfg.linear_value_head_dim,
        cfg.linear_num_key_heads * cfg.linear_key_head_dim * 2 + cfg.linear_num_value_heads
            * cfg.linear_value_head_dim <= usize::MAX,
    ensures
        error::tells(r, linear_shape_of(*cfg)),
{
    proof {
        assert(0 <= cfg.linear_num_key_heads * cfg.linear_key_head_dim) by (nonlinear_arith);
        assert(0 <= cfg.linear_num_value_heads * cfg.linear_value_head_dim) by (nonlinear_arith);
    }
    let key_dim: usize = cfg.linear_num_key_heads * cfg.linear_key_head_dim;
    let value_dim: usize = cfg.linear_num_value_heads * cfg.linear_value_head_dim;
    let conv_dim: usize = key_dim * 2 + value_dim;
    if !numbers::is_multiple(cfg.linear_num_value_heads, cfg.linear_num_key_heads) {
        return Err(
            Message::new("OvisOCR2: linear_num_value_heads (").num(
                cfg.linear_num_value_heads as u64,
            ).text(") must be divisible by linear_num_key_heads (").num(
                cfg.linear_num_key_heads as u64,
            ).text(")").config(),
        );
    }
    if cfg.linear_key_head_dim != cfg.linear_value_head_dim {
        return Err(
            Message::new(
                "OvisOCR2 currently requires equal Gated DeltaNet key/value head dims, got ",
            ).num(cfg.linear_key_head_dim as u64).text("/").num(
                cfg.linear_value_head_dim as u64,
            ).config(),
        );
    }
    let repeat: usize = cfg.linear_num_value_heads / cfg.linear_num_key_heads;
    Ok(LinearShape { key_dim, value_dim, conv_dim, repeat })
}

/// The number of query heads that share a key head, or what is wrong with it.
pub fn kv_groups(cfg: &OvisOcr2TextConfig) -> (r: Result<usize, Error>)
    requires
        cfg.num_key_value_heads > 0 || cfg.num_attention_heads > 0,
    ensures
        error::tells(
            r,
            if !numbers::multiple(cfg.num_attention_heads, cfg.num_key_value_heads) {
                Err(
                    ErrorView::Config(
                        "OvisOCR2: num_attention_heads ("@ + text::dec(
                            cfg.num_attention_heads as nat,
                        ) + ") must be divisible by num_key_value_heads ("@ + text::dec(
                            cfg.num_key_value_heads as nat,
                        ) + ")"@,
                    ),
                )
            } else {
                Ok((cfg.num_attention_heads / cfg.num_key_value_heads) as usize)
            },
        ),
{
    if !numbers::is_multiple(cfg.num_attention_heads, cfg.num_key_value_heads) {
        return Err(
            Message::new("OvisOCR2: num_attention_heads (").num(
                cfg.num_attention_heads as u64,
            ).text(") must be divisible by num_key_value_heads (").num(
                cfg.num_key_value_heads as u64,
            ).text(")").config(),
        );
    }
    Ok(cfg.num_attention_heads / cfg.num_key_value_heads)
}

/// The axis whose positions rotate a dimension: frequencies are dealt out to time,
/// height and width in turn, until a section has used up its share.
pub open spec fn axis_of(dimension: int, half: int, heights: int, widths: int) -> u32 {
    let freq = dimension % half;
    if freq % 3 == 1 && freq < 3 * heights {
        1
    } else if freq % 3 == 2 && freq < 3 * widths {
        2
    } else {
        0
    }
}

/// The axes of all rotating dimensions.
pub fn interleaved_axis_ids(rotary_dim: usize, mrope_section: &Vec<usize>) -> (ids: Vec<u32>)
    requires
        rotary_dim >= 2,
        mrope_section.len() >= 3,
        mrope_section[1] * 3 <= usize::MAX,
        mrope_section[2] * 3 <= usize::MAX,
    ensures
        ids.len() == rotary_dim,
        forall|i: int|
            0 <= i < rotary_dim ==> #[trigger] ids[i] == axis_of(
                i,
                rotary_dim as int / 2,
                mrope_section[1] as int,
                mrope_section[2] as int,
            ),
{
    let half: usize = rotary_dim / 2;
    let h_limit: usize = mrope_section[1] * 3;
    let w_limit: usize = mrope_section[2] * 3;
    let mut ids: Vec<u32> = Vec::new();
    let mut dimension: usize = 0;
    while dimension < rotary_dim
        invariant
            dimension <= rotary_dim,
            half == rotary_dim / 2,
            half > 0,
            mrope_section.len() >= 3,
            h_limit == mrope_section[1] * 3,
            w_limit == mrope_section[2] * 3,
            ids.len() == dimension,
            forall|i: int|
                0 <= i < dimension ==> #[trigger] ids[i] == axis_of(
                    i,
                    rotary_dim as int / 2,
                    mrope_section[1] as int,
                    mrope_section[2] as int,
                ),
        decreases rotary_dim - dimension,
    {
        let freq: usize = dimension % half;
        if freq % 3 == 1 && freq < h_limit {
            ids.push(1);
        } else if freq % 3 == 2 && freq < w_limit {
            ids.push(2);
        } else {
            ids.push(0);
        }
        dimension = dimension + 1;
    }
    ids
}

/// How the heads of the text model rotate.
#[derive(Debug)]
pub struct RotaryPlan {
    pub rotary_dim: usize,
    /// The axis of each rotating dimension.
    pub axis_ids: Vec<u32>,
}

/// The first thing wrong with the rotary settings.
pub open spec fn rotary_problem(cfg: OvisOcr2TextConfig) -> Option<ErrorView> {
    let dim = cfg.rope_parameters.partial_rotary_factor.spec_share(cfg.head_dim);
    let sections = cfg.rope_parameters.mrope_section@;
    if dim == 0 || dim % 2 != 0 {
        Some(ErrorView::Config("OvisOCR2: invalid rotary dimension "@ + text::dec(dim as nat)))
    } else if numbers::sum_upto(sections, sections.len()) != dim / 2 {
        Some(
            ErrorView::Config(
                "OvisOCR2: mrope_section "@ + text::dec_list(sections)
                    + " must sum to rotary_dim/2 ("@ + text::dec((dim / 2) as nat) + ")"@,
            ),
        )
    } else {
        None
    }
}

/// Plans the rotation of the heads.
pub fn rotary_plan(cfg: &OvisOcr2TextConfig) -> (r: Result<RotaryPlan, Error>)
    requires
        cfg.rope_parameters.mrope_section.len() >= 3,
        numbers::sum_upto(
            cfg.rope_parameters.mrope_section@,
            cfg.rope_parameters.mrope_section@.len(),
        ) <= usize::MAX,
        cfg.rope_parameters.mrope_section[1] * 3 <= usize::MAX,
        cfg.rope_parameters.mrope_section[2] * 3 <= usize::MAX,
    ensures
        match rotary_problem(*cfg) {
            Some(p) => r matches Err(e) && e@ == p,
            None => r matches Ok(plan) && {
                let sections = cfg.rope_parameters.mrope_section;
                &&& plan.rotary_dim == cfg.rope_parameters.partial_rotary_factor.spec_share(
                    cfg.head_dim,
                )
                &&& plan.axis_ids.len() == plan.rotary_dim
                &&& forall|i: int|
                    0 <= i < plan.rotary_dim ==> #[trigger] plan.axis_ids[i] == axis_of(
                        i,
                        plan.rotary_dim as int / 2,
                        sections[1] as int,
                        sections[2] as int,
                    )
            },
        },
{
    let rope = &cfg.rope_parameters;
    let rotary_dim: usize = rope.partial_rotary_factor.share_of(cfg.head_dim);
    if rotary_dim == 0 || rotary_dim % 2 != 0 {
        return Err(
            Message::new("OvisOCR2: invalid rotary dimension ").num(rotary_dim as u64).config(),
        );
    }
    let half: usize = rotary_dim / 2;
    if numbers::sum(&rope.mrope_section) != half {
        return Err(
            Message::new("OvisOCR2: mrope_section ").nums(&rope.mrope_section).text(
                " must sum to rotary_dim/2 (",
            ).num(half as u64).text(")").config(),
        );
    }
    let axis_ids = interleaved_axis_ids(rotary_dim, &rope.mrope_section);
    Ok(RotaryPlan { rotary_dim, axis_ids })
}

/// Checks that each layer has a type.
pub fn validate_layer_count(cfg: &OvisOcr2TextConfig) -> (r: Result<(), Error>)
    ensures
        error::verdict(
            if cfg.layer_types.len() != cfg.num_hidden_layers {
                Some(
                    ErrorView::Config(
                        "OvisOCR2: layer_types has "@ + text::dec(cfg.layer_types@.len())
                            + " entries, expected "@ + text::dec(cfg.num_hidden_layers as nat),
                    ),
                )
            } else {
                None
            },
            r,
        ),
{
    if cfg.layer_types.len() != cfg.num_hidden_layers {
        return Err(
            Message::new("OvisOCR2: layer_types has ").num(cfg.layer_types.len() as u64).text(
                " entries, expected ",
            ).num(cfg.num_hidden_layers as u64).config(),
        );
    }
    Ok(())
}

/// A dimension and its partner in the other half rotate by the same axis.
pub proof fn law_partners_share_an_axis(i: int, half: int, heights: int, widths: int)
    requires
        0 <= i < half,
    ensures
        axis_of(i, half, heights, widths) == axis_of(i + half, half, heights, widths),
{
    vstd::arithmetic::div_mod::lemma_small_mod(i as nat, half as nat);
    vstd::arithmetic::div_mod::lemma_mod_add_multiples_vanish(i, half);
}

/// How the convolution of a linear-attention layer goes on over more columns.
#[derive(Debug, Clone, Copy, PartialEq, Eq, Structural)]
pub enum ConvStep {
    /// The first columns; those from `from` on are remembered.
    Start { from: usize },
    /// The first columns, fewer than are remembered; `zeros` columns stand before
    /// them.
    Pad { zeros: usize },
    /// One more column: the oldest one is forgotten.
    Shift,
    /// More columns behind the remembered ones; those from `from` on are remembered.
    Join { from: usize },
}

/// How the convolution goes on over `columns` more columns.
pub open spec fn next_step(has_state: bool, columns: int, kernel: int) -> ConvStep {
    if has_state {
        if columns == 1 {
            ConvStep::Shift
        } else {
            ConvStep::Join { from: columns as usize }
        }
    } else if columns >= kernel {
        ConvStep::Start { from: (columns - kernel) as usize }
    } else {
        ConvStep::Pad { zeros: (kernel - columns) as usize }
    }
}

/// Decides how the convolution goes on over `columns` more columns.
pub fn conv_step(has_state: bool, columns: usize, kernel: usize) -> (step: ConvStep)
    requires
        kernel + columns <= usize::MAX,
    ensures
        step == next_step(has_state, columns as int, kernel as int),
{
    if has_state {
        if columns == 1 {
            ConvStep::Shift
        } else {
            let context: usize = kernel + columns;
            ConvStep::Join { from: context - kernel }
        }
    } else if columns >= kernel {
        ConvStep::Start { from: columns - kernel }
    } else {
        ConvStep::Pad { zeros: kernel - columns }
    }
}

/// The columns that are remembered after a step.
pub open spec fn remembered<T>(step: ConvStep, state: Seq<T>, columns: Seq<T>, zero: T) -> Seq<T> {
    match step {
        ConvStep::Start { from } => columns.skip(from as int),
        ConvStep::Pad { zeros } => Seq::new(zeros as nat, |i: int| zero) + columns,
        ConvStep::Shift => state.skip(1) + columns,
        ConvStep::Join { from } => (state + columns).skip(from as int),
    }
}

/// The last `kernel` columns of all that were seen, behind as many zeros.
pub open spec fn window<T>(seen: Seq<T>, kernel: int, zero: T) -> Seq<T> {
    (Seq::new(kernel as nat, |i: int| zero) + seen).skip(seen.len() as int)
}

/// However the columns come in, the layer remembers the last ones of all that it
/// has seen.
pub proof fn law_convolution_remembers_the_last_columns<T>(
    seen: Seq<T>,
    columns: Seq<T>,
    kernel: usize,
    zero: T,
    has_state: bool,
)
    requires
        !has_state ==> seen.len() == 0,
        kernel > 0,
        columns.len() <= usize::MAX,
    ensures
        remembered(next_step(has_state, columns.len() as int, kernel as int), window(seen, kernel as int, zero), columns, zero) == window(
            seen + columns,
            kernel as int,
            zero,
        ),
{
    let step = next_step(has_state, columns.len() as int, kernel as int);
    let state = window(seen, kernel as int, zero);
    assert(state.len() == kernel);
    let next = window(seen + columns, kernel as int, zero);
    assert(remembered(step, state, columns, zero) =~= next);
}

/// Of each three frequencies the first turns with time, the second with height and the
/// third with width, as long as height and width have some left.
pub proof fn law_axes_take_turns(k: int, half: int, heights: int, widths: int)
    requires
        0 <= k,
        3 * k + 2 < half,
    ensures
        axis_of(3 * k, half, heights, widths) == 0,
        axis_of(3 * k + 1, half, heights, widths) == if k < heights {
            1u32
        } else {
            0u32
        },
        axis_of(3 * k + 2, half, heights, widths) == if k < widths {
            2u32
        } else {
            0u32
        },
{
    vstd::arithmetic::div_mod::lemma_small_mod((3 * k) as nat, half as nat);
    vstd::arithmetic::div_mod::lemma_small_mod((3 * k + 1) as nat, half as nat);
    vstd::arithmetic::div_mod::lemma_small_mod((3 * k + 2) as nat, half as nat);
}

/// A linear layer has room for all key heads twice and all value heads once, and each
/// key head serves as many value heads as every other.
pub proof fn law_linear_widths_count_the_heads(cfg: OvisOcr2TextConfig)
    requires
        cfg.linear_num_key_heads > 0,
        cfg.linear_num_key_heads * cfg.linear_key_head_dim * 2 + cfg.linear_num_value_heads
            * cfg.linear_value_head_dim <= usize::MAX,
    ensures
        match linear_shape_of(cfg) {
            Ok(shape) => {
                &&& shape.key_dim == cfg.linear_num_key_heads * cfg.linear_key_head_dim
                &&& shape.value_dim == cfg.linear_num_value_heads * cfg.linear_value_head_dim
                &&& shape.conv_dim == shape.key_dim + shape.key_dim + shape.value_dim
                &&& shape.repeat * cfg.linear_num_key_heads == cfg.linear_num_value_heads
                &&& cfg.linear_key_head_dim == cfg.linear_value_head_dim
            },
            Err(_) => cfg.linear_num_value_heads % cfg.linear_num_key_heads != 0
                || cfg.linear_key_head_dim != cfg.linear_value_head_dim,
        },
{
    let q = cfg.linear_num_value_heads as int / cfg.linear_num_key_heads as int;
    vstd::arithmetic::div_mod::lemma_fundamental_div_mod(
        cfg.linear_num_value_heads as int,
        cfg.linear_num_key_heads as int,
    );
    assert(cfg.linear_num_key_heads as int * q == q * cfg.linear_num_key_heads as int)
        by (nonlinear_arith);
    assert(cfg.linear_num_key_heads * cfg.linear_key_head_dim >= 0) by (nonlinear_arith);
    assert(cfg.linear_num_value_heads * cfg.linear_value_head_dim >= 0) by (nonlinear_arith);
}

/// The rotary settings are sound when some lanes rotate and the sections share out
/// their pairs.
pub proof fn law_sound_rotation_pairs_all_lanes(cfg: OvisOcr2TextConfig)
    ensures
        ({
            let dim = cfg.rope_parameters.partial_rotary_factor.spec_share(cfg.head_dim);
            let sections = cfg.rope_parameters.mrope_section@;
            rotary_problem(cfg) is None <==> dim > 0 && dim == 2 * numbers::sum_upto(
                sections,
                sections.len(),
            )
        }),
{
}

} // verus!
