use oar_ocr_vl::decoder_graph::{GraphSlots, Replay};
use oar_ocr_vl::decoding::GreedyDecoder;
use oar_ocr_vl::float::Float;
use oar_ocr_vl::glmocr::model::{
    build_position_ids, build_prompt, check_image_token, decode_tokens, encode_prompt,
    eos_token_ids, expand_image_tokens, image_span, place_image, prompt, prompt_ids, rope_delta,
    validate_counts, validate_image_token, EosTokenId,
};
use oar_ocr_vl::glmocr::mtp::{draft_position, shifted_prompt, uses_mtp, MtpDecoder, MtpStep};
use oar_ocr_vl::glmocr::text::{
    ar_cuda_graph_capacity, attention_shapes, effective_head_dim, initial_cache_capacity,
    mrope_axes, rotary_dim, rotary_lanes, rotary_size, validate_frequency_dims,
    validate_graph_batch, validate_heads, validate_position_dims, validate_rotary, RotaryLane,
    GLM_DECODE_CACHE_LEN,
};
use oar_ocr_vl::recognition::RecognitionTask;
use tokenizers::models::wordlevel::WordLevel;
use tokenizers::{AddedToken, Tokenizer};

#[test]
fn ar_graph_capacity_uses_bounded_power_of_two_buckets() {
    assert_eq!(ar_cuda_graph_capacity(1500, 256), Some(2048));
    assert_eq!(ar_cuda_graph_capacity(2000, 4096), Some(8192));
    assert_eq!(ar_cuda_graph_capacity(10_000, 20_000), Some(GLM_DECODE_CACHE_LEN));
    assert_eq!(ar_cuda_graph_capacity(100, 0), None);
    assert_eq!(ar_cuda_graph_capacity(GLM_DECODE_CACHE_LEN, 1), None);
}

#[test]
fn graphs_are_reused_while_they_are_large_enough() {
    let mut slots = GraphSlots::empty();
    assert_eq!(slots.prepare_ar(false, true, 1500, 256, 16_384), Some(2048));
    assert_eq!(slots.prepare_ar(false, true, 1000, 256, 16_384), None);
    assert_eq!(slots.replay_decode(2048, true), Replay::Graph);
    assert_eq!(slots.replay_decode(2048, false), Replay::Eager);
    assert_eq!(slots.replay_decode(2049, true), Replay::Eager);
    assert_eq!(slots.decode, None);
    assert_eq!(slots.prepare_verification(false, true, 1000, 100, 5, 16_384), (Some(2048), true));
    assert_eq!(slots.prepare_verification(false, true, 1000, 100, 5, 16_384), (Some(2048), false));
    assert_eq!(slots.replay_verification(2048, true), Replay::Graph);
    assert_eq!(slots.prepare_ar(true, true, 1, 1, 16_384), None);
    assert_eq!(slots.verification, None);
}

#[test]
fn cache_starts_within_its_bounds() {
    assert_eq!(initial_cache_capacity(1000), 1000);
    assert_eq!(initial_cache_capacity(100_000), 16_384);
}

#[test]
fn prompt_holds_one_marker_for_each_image_token() {
    let p = build_prompt("Text Recognition:");
    assert_eq!(
        expand_image_tokens(&p, 3).unwrap(),
        "[gMASK]<sop><|user|>\n<|begin_of_image|><|image|><|image|><|image|><|end_of_image|>Text Recognition:<|assistant|>\n"
    );
    assert_eq!(
        expand_image_tokens(&p, 0).unwrap_err().message(),
        "GLM-OCR: num_image_tokens is zero"
    );
    assert_eq!(
        expand_image_tokens("no marker", 1).unwrap_err().message(),
        "GLM-OCR: prompt missing <|image|> token"
    );
    assert_eq!(prompt(RecognitionTask::Table), "Table Recognition:");
    assert_eq!(prompt(RecognitionTask::Chart), "Text Recognition:");
}

#[test]
fn positions_follow_the_image_grid() {
    let mut ids = vec![1u32; 12];
    ids[2..8].fill(50);
    let p = build_position_ids(&ids, (1, 4, 6), 2, 50).unwrap();
    assert_eq!((p.ids.temporal[1], p.ids.height[1], p.ids.width[1]), (1, 1, 1));
    assert_eq!((p.ids.temporal[7], p.ids.height[7], p.ids.width[7]), (2, 3, 4));
    assert_eq!(p.ids.temporal[8], 5);
    assert_eq!(p.max_pos, 8);
    assert_eq!(rope_delta(p.max_pos, 12), -3);
    assert_eq!(
        build_position_ids(&ids, (1, 4, 4), 2, 50).unwrap_err().message(),
        "GLM-OCR: image token count (6) != expected (4)"
    );
    ids[10] = 50;
    assert_eq!(
        build_position_ids(&ids, (1, 4, 6), 2, 50).unwrap_err().message(),
        "GLM-OCR: multiple image groups in prompt are not supported"
    );
    let plain = build_position_ids(&vec![1, 2, 3], (1, 4, 6), 2, 50).unwrap();
    assert_eq!(plain.max_pos, 2);
    assert_eq!(plain.ids.width, [0, 1, 2]);
    // A prompt without tokens is an empty run of image tokens.
    let none = build_position_ids(&Vec::new(), (3, 1, 6), 2, 50).unwrap();
    assert!(none.ids.temporal.is_empty());
    assert_eq!(none.max_pos, 2);
    assert_eq!(
        build_position_ids(&Vec::new(), (1, 4, 6), 2, 50).unwrap_err().message(),
        "GLM-OCR: image token count (0) != expected (6)"
    );
}

#[test]
fn image_embeddings_replace_their_markers() {
    assert_eq!(image_span(&vec![1, 5, 5, 2], 5, 2).unwrap(), (1, 3));
    assert_eq!(
        image_span(&vec![1, 5, 5, 2], 5, 3).unwrap_err().message(),
        "GLM-OCR: image token count (2) != image embeds (3)"
    );
    assert_eq!(
        image_span(&vec![1, 2], 5, 0).unwrap_err().message(),
        "GLM-OCR: no image tokens found in prompt"
    );
    assert_eq!(
        image_span(&vec![5, 1, 5], 5, 2).unwrap_err().message(),
        "GLM-OCR: image tokens are not contiguous in prompt"
    );
}

#[test]
fn image_token_is_checked_where_it_exists() {
    assert!(check_image_token(None, 5).is_ok());
    assert!(check_image_token(Some(5), 5).is_ok());
    assert_eq!(
        check_image_token(Some(6), 5).unwrap_err().message(),
        "GLM-OCR image_token_id mismatch: tokenizer 6 != config 5"
    );
    let mut tokenizer = Tokenizer::new(WordLevel::default());
    assert!(validate_image_token(&tokenizer, 5).is_ok());
    tokenizer.add_special_tokens([AddedToken::from("<|image|>", true)]).unwrap();
    assert!(validate_image_token(&tokenizer, 0).is_ok());
    assert!(validate_image_token(&tokenizer, 5).is_err());
    assert!(validate_counts(0, 5).is_ok());
    assert!(validate_counts(2, 5).is_err());
    assert_eq!(eos_token_ids(&EosTokenId::Single(4)), [4]);
    assert_eq!(eos_token_ids(&EosTokenId::Multiple(vec![4, 5])), [4, 5]);
}

#[test]
fn tokenizer_round_trip_trims_the_text() {
    let mut tokenizer = Tokenizer::new(WordLevel::default());
    tokenizer.add_tokens([AddedToken::from(" hello ", false)]).unwrap();
    assert_eq!(encode_prompt(&tokenizer, " hello ").unwrap(), [0]);
    assert_eq!(decode_tokens(&tokenizer, &vec![0]).unwrap(), "hello");
    assert_eq!(
        encode_prompt(&tokenizer, "").unwrap_err().message(),
        "GLM-OCR: empty prompt after tokenization"
    );
}

fn rule(seq: &[u32]) -> u32 {
    seq.iter().fold(5u32, |a, &t| (a * 13 + t * 7 + 1) % 19)
}

#[test]
fn drafted_tokens_never_change_the_text() {
    let prompt = vec![2u32, 7];
    for eos in [0u32, 3, 8, 50] {
        let mut greedy = GreedyDecoder::new(16, 2);
        while greedy.wants_token() {
            let mut all = prompt.clone();
            all.extend_from_slice(&greedy.generated);
            greedy.take(rule(&all), &vec![eos]);
        }
        let mut generated = Vec::new();
        if let Some(mut d) = MtpDecoder::start(2, 0, rule(&prompt), 16, &vec![eos]) {
            let mut round = 0;
            loop {
                if !d.emit_current() {
                    break;
                }
                let mut seq = prompt.clone();
                seq.extend_from_slice(&d.generated);
                let mut drafts = Vec::new();
                let mut targets = vec![rule(&seq)];
                for k in 0..4 {
                    let t = if k == round % 5 { 18 } else { rule(&seq) };
                    drafts.push(t);
                    seq.push(t);
                    targets.push(rule(&seq));
                }
                assert_eq!(d.query_ids(&drafts).len(), 5);
                round += 1;
                if let MtpStep::Done = d.verify(&drafts, &targets, &vec![eos]).unwrap() {
                    break;
                }
            }
            generated = d.generated;
        }
        assert_eq!(generated, greedy.generated);
    }
}

#[test]
fn short_verification_is_an_error() {
    let mut d = MtpDecoder::start(2, 0, 1, 16, &vec![9]).unwrap();
    assert_eq!(
        d.verify(&vec![1, 2, 3, 4], &vec![1], &vec![9]).unwrap_err().message(),
        "GLM-OCR: verification returned 1 tokens, expected 5"
    );
}

#[test]
fn draft_head_sees_the_shifted_prompt() {
    assert_eq!(shifted_prompt(&vec![1, 2, 3], 9), [2, 3, 9]);
    assert_eq!(draft_position(10, 1), 10);
    assert_eq!(draft_position(10, 3), 12);
    assert!(uses_mtp(true, true, 8, false));
    assert!(!uses_mtp(true, true, 7, false));
    assert!(!uses_mtp(true, true, 8, true));
    assert!(!uses_mtp(false, true, 8, false));
}

#[test]
fn rotary_lanes_pair_neighbours() {
    let lanes = rotary_lanes(4, 6).unwrap();
    assert_eq!(lanes[0], RotaryLane::Rotate { partner: 1, negate: true, frequency: 0 });
    assert_eq!(lanes[3], RotaryLane::Rotate { partner: 2, negate: false, frequency: 1 });
    assert_eq!(lanes[5], RotaryLane::Pass);
    assert!(rotary_lanes(3, 6).is_err());
    assert_eq!(mrope_axes(&vec![1, 2, 1]).unwrap(), [0, 1, 1, 2]);
    assert!(mrope_axes(&Vec::new()).is_err());
}

#[test]
fn rotary_settings_are_checked() {
    assert!(validate_rotary("default", 8, &vec![1, 2, 1]).is_ok());
    assert!(validate_rotary("yarn", 8, &vec![1, 2, 1]).is_err());
    assert!(validate_rotary("default", 7, &vec![1, 2, 1]).is_err());
    assert_eq!(
        validate_rotary("default", 10, &vec![1, 2, 1]).unwrap_err().message(),
        "GLM-OCR: mrope_section sum (4) != dim/2 (5)"
    );
    let half = Float { bits: 0.5f64.to_bits(), text: "0.5".to_string() };
    assert_eq!(rotary_dim(127, &half), 63);
    assert!(validate_heads(16, 8).is_ok());
    assert!(validate_heads(16, 5).is_err());
    let shapes = attention_shapes(1, 3, 16, 8, 128);
    assert_eq!(shapes.q, (1, 16, 3, 128));
    assert_eq!(shapes.kv, (1, 8, 3, 128));
    assert_eq!(shapes.groups, 2);
    assert!(validate_graph_batch(1).is_ok());
    assert!(validate_graph_batch(2).is_err());
}

#[test]
fn rotary_size_follows_the_settings() {
    let half = Float { bits: 0.5f64.to_bits(), text: "0.5".to_string() };
    assert_eq!(effective_head_dim(0, 1024, 16), 64);
    assert_eq!(effective_head_dim(128, 1024, 16), 128);
    assert_eq!(rotary_size("default", 16, &half, &vec![1, 2, 1]).unwrap(), 8);
    assert!(rotary_size("yarn", 16, &half, &vec![1, 2, 1]).is_err());
    assert!(rotary_size("default", 16, &half, &vec![1, 2, 2]).is_err());
    assert!(validate_position_dims(&vec![3, 1, 7]).is_ok());
    assert_eq!(
        validate_position_dims(&vec![1, 7]).unwrap_err().message(),
        "GLM-OCR: position_ids must be (3, B, S), got [1, 7]"
    );
    assert!(validate_frequency_dims(&vec![3, 1, 7, 4]).is_ok());
    assert!(validate_frequency_dims(&vec![2, 1, 7, 4]).is_err());
}

#[test]
fn image_is_placed_among_the_text() {
    let mut ids = vec![1u32; 12];
    ids[2..8].fill(50);
    let place = place_image(&ids, (1, 4, 6), 2, 50, 6).unwrap();
    assert_eq!((place.start, place.end, place.rope_delta), (2, 8, -3));
    assert_eq!(place.positions.max_pos, 8);
    assert_eq!(
        place_image(&ids, (1, 4, 6), 2, 50, 5).unwrap_err().message(),
        "GLM-OCR: image token count (6) != image embeds (5)"
    );
    assert_eq!(
        place_image(&ids, (1, 4, 4), 2, 50, 6).unwrap_err().message(),
        "GLM-OCR: image token count (6) != expected (4)"
    );
}

#[test]
fn prompt_is_encoded_with_its_image_tokens() {
    let mut tokenizer = Tokenizer::new(WordLevel::default());
    let whole = expand_image_tokens(&build_prompt("Text Recognition:"), 2).unwrap();
    tokenizer.add_special_tokens([AddedToken::from(whole, true)]).unwrap();
    assert_eq!(prompt_ids(&tokenizer, "Text Recognition:", 2).unwrap(), [0]);
    assert!(prompt_ids(&tokenizer, "Text Recognition:", 3).is_err());
    assert_eq!(
        prompt_ids(&tokenizer, "Text Recognition:", 0).unwrap_err().message(),
        "GLM-OCR: num_image_tokens is zero"
    );
}
