//! The text decoder: rotary layout, heads and graph capacities.
use crate::decoder_graph;
use crate::error::{self, Error, ErrorView, Message};
use crate::float::Float;
use crate::numbers;
use crate::text;
use vstd::prelude::*;

verus! {

/// The most positions that a decoder graph is captured with.
pub const GLM_DECODE_CACHE_LEN: usize = 16_384;

/// The positions that a graph for one-token decoding is captured with.
pub fn ar_cuda_graph_capacity(prompt_len: usize, max_new_tokens: usize) -> (r: Option<usize>)
    ensures
        r == decoder_graph::capacity(prompt_len, max_new_tokens, 16_384),
{
    decoder_graph::decoder_cache_capacity(prompt_len, max_new_tokens, GLM_DECODE_CACHE_LEN)
}

/// The positions that a K/V cache starts with.
pub fn initial_cache_capacity(max_position_embeddings: usize) -> (n: usize)
    ensures
        n == decoder_graph::least(max_position_embeddings as int, 16_384),
{
    if max_position_embeddings <= GLM_DECODE_CACHE_LEN {
        max_position_embeddings
    } else {
        GLM_DECODE_CACHE_LEN
    }
}

/// How one lane of a head takes part in the rotation.
#[derive(Debug, Clone, Copy, PartialEq, Eq, Structural)]
pub enum RotaryLane {
    /// The lane becomes itself times the cosine plus its partner, negated where
    /// told, times the sine of frequency `frequency`.
    Rotate { partner: usize, negate: bool, frequency: usize },
    /// The lane is handed on.
    Pass,
}

/// The part of lane `j` of a head whose first `rot_dim` lanes rotate in
/// neighbouring pairs.
pub open spec fn lane_of(j: int, rot_dim: int) -> RotaryLane {
    if j < rot_dim {
        RotaryLane::Rotate {
            partner: (if j % 2 == 0 {
                j + 1
            } else {
                j - 1
            }) as usize,
            negate: j % 2 == 0,
            frequency: (j / 2) as usize,
        }
    } else {
        RotaryLane::Pass
    }
}

/// The parts of all lanes of a head; the number of rotating ones has to be even.
pub fn rotary_lanes(rot_dim: usize, head_dim: usize) -> (r: Result<Vec<RotaryLane>, Error>)
    requires
        rot_dim <= head_dim,
    ensures
        match r {
            Ok(lanes) => {
                &&& rot_dim % 2 == 0
                &&& lanes.len() == head_dim
                &&& forall|j: int|
                    0 <= j < head_dim ==> #[trigger] lanes[j] == lane_of(j, rot_dim as int)
            },
            Err(e) => {
                &&& rot_dim % 2 != 0
                &&& e@ == ErrorView::Config(
                    "GLM-OCR: head_dim must be even, got "@ + text::dec(rot_dim as nat),
                )
            },
        },
{
    if rot_dim % 2 != 0 {
        return Err(
            Message::new("GLM-OCR: head_dim must be even, got ").num(rot_dim as u64).config(),
        );
    }
    let mut lanes: Vec<RotaryLane> = Vec::new();
    let mut j: usize = 0;
    while j < head_dim
        invariant
            j <= head_dim,
            rot_dim <= head_dim,
            rot_dim % 2 == 0,
            lanes.len() == j,
            forall|k: int| 0 <= k < j ==> #[trigger] lanes[k] == lane_of(k, rot_dim as int),
        decreases head_dim - j,
    {
        if j < rot_dim {
            let partner: usize = if j % 2 == 0 {
                j + 1
            } else {
                j - 1
            };
            lanes.push(RotaryLane::Rotate { partner, negate: j % 2 == 0, frequency: j / 2 });
        } else {
            lanes.push(RotaryLane::Pass);
        }
        j = j + 1;
    }
    Ok(lanes)
}

/// Lanes rotate in pairs: partners point at each other, share their frequency, and
/// exactly one of them enters negated.
pub proof fn law_lanes_rotate_in_pairs(j: int, rot_dim: int)
    requires
        0 <= j < rot_dim <= usize::MAX,
        rot_dim % 2 == 0,
    ensures
        lane_of(j, rot_dim) matches RotaryLane::Rotate { partner, negate, frequency } && {
            &&& partner < rot_dim
            &&& partner != j
            &&& frequency < rot_dim / 2
            &&& lane_of(partner as int, rot_dim) == (RotaryLane::Rotate {
                partner: j as usize,
                negate: !negate,
                frequency,
            })
        },
{
}

/// Frequency `f` belongs to section `i`.
pub open spec fn in_section(sections: Seq<usize>, f: int, i: int) -> bool {
    &&& 0 <= i < sections.len()
    &&& numbers::sum_upto(sections, i as nat) <= f < numbers::sum_upto(sections, (i + 1) as nat)
}

/// The axis whose positions each frequency uses: the sections take the three axes
/// in turn.
pub fn mrope_axes(sections: &Vec<usize>) -> (r: Result<Vec<usize>, Error>)
    ensures
        match r {
            Ok(axes) => {
                &&& sections.len() > 0
                &&& axes@.len() == numbers::sum_upto(sections@, sections@.len())
                &&& forall|f: int, i: int| #[trigger]
                    in_section(sections@, f, i) ==> axes@[f] == i % 3
            },
            Err(e) => sections.len() == 0 && e@ == ErrorView::Config(
                "GLM-OCR: mrope_section is empty"@,
            ),
        },
{
    if sections.len() == 0 {
        return Err(Error::config("GLM-OCR: mrope_section is empty"));
    }
    let mut axes: Vec<usize> = Vec::new();
    let mut i: usize = 0;
    while i < sections.len()
        invariant
            i <= sections.len(),
            axes@.len() == numbers::sum_upto(sections@, i as nat),
            forall|f: int, k: int| #[trigger]
                in_section(sections@, f, k) && k < i ==> axes@[f] == k % 3,
        decreases sections.len() - i,
    {
        let n: usize = sections[i];
        let ghost before = axes@;
        let mut k: usize = 0;
        while k < n
            invariant
                k <= n,
                axes@.len() == before.len() + k,
                forall|f: int| 0 <= f < before.len() ==> axes@[f] == before[f],
                forall|f: int| before.len() <= f < axes@.len() ==> axes@[f] == i % 3,
            decreases n - k,
        {
            axes.push(i % 3);
            k = k + 1;
        }
        proof {
            assert forall|f: int, m: int| #[trigger]
                in_section(sections@, f, m) && m < i + 1 implies axes@[f] == m % 3 by {
                if m < i {
                    numbers::lemma_sum_grows(sections@, (m + 1) as nat, i as nat);
                    assert(axes@[f] == before[f]);
                }
            }
        }
        i = i + 1;
    }
    Ok(axes)
}

/// The first thing wrong with the rotary settings; `dim` is the rotating part of a
/// head.
pub open spec fn rotary_problem(rope_type: Seq<char>, dim: usize, sections: Seq<usize>) -> Option<
    ErrorView,
> {
    let sum = numbers::sum_upto(sections, sections.len());
    if rope_type != "default"@ {
        Some(ErrorView::Config("GLM-OCR: unsupported rope_type '"@ + rope_type + "'"@))
    } else if dim % 2 != 0 {
        Some(ErrorView::Config("GLM-OCR: rotary dim must be even, got "@ + text::dec(dim as nat)))
    } else if sum != dim / 2 {
        Some(
            ErrorView::Config(
                "GLM-OCR: mrope_section sum ("@ + text::dec(sum) + ") != dim/2 ("@ + text::dec(
                    (dim / 2) as nat,
                ) + ")"@,
            ),
        )
    } else {
        None
    }
}

/// The number of rotating lanes of a head.
pub fn rotary_dim(head_dim: usize, partial_rotary_factor: &Float) -> (dim: usize)
    ensures
        dim == partial_rotary_factor.spec_share(head_dim),
{
    partial_rotary_factor.share_of(head_dim)
}

/// Checks the rotary settings.
pub fn validate_rotary(rope_type: &str, dim: usize, sections: &Vec<usize>) -> (r: Result<(), Error>)
    requires
        numbers::sum_upto(sections@, sections@.len()) <= usize::MAX,
    ensures
        error::verdict(rotary_problem(rope_type@, dim, sections@), r),
{
    if !text::same(rope_type, "default") {
        return Err(
            Message::new("GLM-OCR: unsupported rope_type '").text(rope_type).text("'").config(),
        );
    }
    if dim % 2 != 0 {
        return Err(
            Message::new("GLM-OCR: rotary dim must be even, got ").num(dim as u64).config(),
        );
    }
    let sum: usize = numbers::sum(sections);
    if sum != dim / 2 {
        return Err(
            Message::new("GLM-OCR: mrope_section sum (").num(sum as u64).text(") != dim/2 (").num(
                (dim / 2) as u64,
            ).text(")").config(),
        );
    }
    Ok(())
}

/// The size of one head: the configured one, or an even share where it is zero.
pub fn effective_head_dim(configured: usize, hidden_size: usize, heads: usize) -> (d: usize)
    requires
        configured == 0 ==> heads > 0,
    ensures
        d == if configured > 0 {
            configured
        } else {
            hidden_size / heads
        },
{
    if configured > 0 {
        configured
    } else {
        hidden_size / heads
    }
}

/// The number of rotating lanes of a head, or what is wrong with the settings.
pub fn rotary_size(
    rope_type: &str,
    head_dim: usize,
    partial_rotary_factor: &Float,
    sections: &Vec<usize>,
) -> (r: Result<usize, Error>)
    requires
        numbers::sum_upto(sections@, sections@.len()) <= usize::MAX,
    ensures
        ({
            let dim = partial_rotary_factor.spec_share(head_dim) as usize;
            match rotary_problem(rope_type@, dim, sections@) {
                Some(p) => r matches Err(e) && e@ == p,
                None => r == Ok::<usize, Error>(dim),
            }
        }),
{
    let dim: usize = rotary_dim(head_dim, partial_rotary_factor);
    match validate_rotary(rope_type, dim, sections) {
        Ok(()) => Ok(dim),
        Err(e) => Err(e),
    }
}

/// Checks the dimensions of positions: three axes, a batch and its tokens.
pub fn validate_position_dims(dims: &Vec<usize>) -> (r: Result<(), Error>)
    ensures
        error::verdict(
            if dims.len() != 3 || dims[0] != 3 {
                Some(
                    ErrorView::InvalidInput(
                        "GLM-OCR: position_ids must be (3, B, S), got "@ + text::dec_list(dims@),
                    ),
                )
            } else {
                None
            },
            r,
        ),
{
    if dims.len() != 3 || dims[0] != 3 {
        return Err(
            Message::new("GLM-OCR: position_ids must be (3, B, S), got ").nums(
                dims,
            ).invalid_input(),
        );
    }
    Ok(())
}

/// Checks the dimensions of frequencies: three axes, a batch, its tokens and the
/// lanes.
pub fn validate_frequency_dims(dims: &Vec<usize>) -> (r: Result<(), Error>)
    ensures
        error::verdict(
            if dims.len() != 4 || dims[0] != 3 {
                Some(
                    ErrorView::InvalidInput(
                        "GLM-OCR: freqs dims mismatch, got "@ + text::dec_list(dims@),
                    ),
                )
            } else {
                None
            },
            r,
        ),
{
    if dims.len() != 4 || dims[0] != 3 {
        return Err(
            Message::new("GLM-OCR: freqs dims mismatch, got ").nums(dims).invalid_input(),
        );
    }
    Ok(())
}

/// Where the three projections of an attention layer go.
#[derive(Debug, Clone, Copy)]
pub struct AttentionShapes {
    /// Batch, heads, tokens and head size of the queries.
    pub q: (usize, usize, usize, usize),
    /// Batch, heads, tokens and head size of keys and values.
    pub kv: (usize, usize, usize, usize),
    /// Query heads that share one key head.
    pub groups: usize,
}

/// The first thing wrong with the heads.
pub open spec fn heads_problem(heads: usize, kv_heads: usize) -> Option<ErrorView> {
    if !numbers::multiple(heads, kv_heads) {
        Some(
            ErrorView::Config(
                "GLM-OCR: num_attention_heads ("@ + text::dec(heads as nat)
                    + ") must be divisible by num_key_value_heads ("@ + text::dec(kv_heads as nat)
                    + ")"@,
            ),
        )
    } else {
        None
    }
}

/// Checks the heads.
pub fn validate_heads(heads: usize, kv_heads: usize) -> (r: Result<(), Error>)
    ensures
        error::verdict(heads_problem(heads, kv_heads), r),
{
    if !numbers::is_multiple(heads, kv_heads) {
        return Err(
            Message::new("GLM-OCR: num_attention_heads (").num(heads as u64).text(
                ") must be divisible by num_key_value_heads (",
            ).num(kv_heads as u64).text(")").config(),
        );
    }
    Ok(())
}

/// The shapes of the projections of `seq_len` tokens.
pub fn attention_shapes(
    batch: usize,
    seq_len: usize,
    heads: usize,
    kv_heads: usize,
    head_dim: usize,
) -> (s: AttentionShapes)
    requires
        kv_heads > 0,
    ensures
        s.q == (batch, heads, seq_len, head_dim),
        s.kv == (batch, kv_heads, seq_len, head_dim),
        s.groups == heads / kv_heads,
        heads_problem(heads, kv_heads) is None ==> s.groups * kv_heads == heads,
{
    proof {
        if heads % kv_heads == 0 {
            assert((heads / kv_heads) * kv_heads == heads) by (nonlinear_arith)
                requires
                    heads % kv_heads == 0,
                    kv_heads > 0,
            ;
        }
    }
    AttentionShapes {
        q: (batch, heads, seq_len, head_dim),
        kv: (batch, kv_heads, seq_len, head_dim),
        groups: heads / kv_heads,
    }
}

/// Checks the batch of a graph pass.
pub fn validate_graph_batch(batch: usize) -> (r: Result<(), Error>)
    ensures
        error::verdict(
            if batch != 1 {
                Some(ErrorView::Config("GLM-OCR CUDA-graph attention requires batch size 1"@))
            } else {
                None
            },
            r,
        ),
{
    if batch != 1 {
        return Err(Error::config("GLM-OCR CUDA-graph attention requires batch size 1"));
    }
    Ok(())
}

/// Each two neighbouring lanes rotate together: the one with the even number takes its
/// partner negated, and the pair has the frequency of its number.
pub proof fn law_neighbouring_lanes_are_partners(f: int, j: int, rot_dim: int)
    requires
        0 <= f,
        2 * f + 1 < rot_dim <= usize::MAX,
        rot_dim <= j,
    ensures
        lane_of(2 * f, rot_dim) == (RotaryLane::Rotate {
            partner: (2 * f + 1) as usize,
            negate: true,
            frequency: f as usize,
        }),
        lane_of(2 * f + 1, rot_dim) == (RotaryLane::Rotate {
            partner: (2 * f) as usize,
            negate: false,
            frequency: f as usize,
        }),
        lane_of(j, rot_dim) == RotaryLane::Pass,
{
}

/// A section holds as many frequencies as its entry says, right behind those of the
/// sections before it.
pub proof fn law_sections_share_out_the_frequencies(sections: Seq<usize>, i: int, k: int)
    requires
        0 <= i < sections.len(),
    ensures
        in_section(sections, numbers::sum_upto(sections, i as nat) + k, i) <==> 0 <= k
            < sections[i],
        numbers::sum_upto(sections, 0) == 0,
        numbers::sum_upto(sections, (i + 1) as nat) == numbers::sum_upto(sections, i as nat)
            + sections[i],
{
}

/// The rotary settings are sound when the rotation is the usual one and the sections
/// share out the pairs of lanes.
pub proof fn law_sound_rotation_pairs_all_lanes(rope_type: Seq<char>, dim: usize, sections: Seq<usize>)
    ensures
        rotary_problem(rope_type, dim, sections) is None <==> rope_type == "default"@ && dim == 2
            * numbers::sum_upto(sections, sections.len()),
{
}

/// Heads are sound when the query heads are some number of times the key heads.
pub proof fn law_heads_are_shared_evenly(heads: usize, kv_heads: usize)
    ensures
        heads_problem(heads, kv_heads) is None <==> exists|k: int| heads == #[trigger] (k
            * kv_heads),
{
    numbers::law_multiple_is_a_product(heads, kv_heads);
}

/// What is wrong with rotation and heads is told as a fault of the configuration.
pub proof fn law_faults_are_of_the_configuration(
    rope_type: Seq<char>,
    dim: usize,
    sections: Seq<usize>,
    heads: usize,
    kv_heads: usize,
)
    ensures
        rotary_problem(rope_type, dim, sections) matches Some(e) ==> e is Config,
        heads_problem(heads, kv_heads) matches Some(e) ==> e is Config,
{
}

} // verus!
