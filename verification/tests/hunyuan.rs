use oar_ocr_vl::error::Error;
use oar_ocr_vl::float::Float;
use oar_ocr_vl::hunyuanocr::config::{
    checkpoint_penalty, generation_eos_ids, merge_stop_ids, stop_token_ids,
    validate_dflash_version, validate_repetition_penalty, EosSetting, HunyuanOcrConfig,
    HunyuanOcrImageProcessorConfig, HunyuanOcrParseOptions, HunyuanOcrRopeScaling,
    HunyuanOcrVersion, HunyuanOcrVisionConfig,
};
use oar_ocr_vl::hunyuanocr::decode::{
    left_padded, needs_prompt_mask, preparation, BatchDecoder, Preparation,
};
use oar_ocr_vl::hunyuanocr::dflash::{
    plan_append, prepare_graph, replay_graph, reset_drops_graph, rope_source, ContextAppend,
    ContextKv, DFlashConfig, DFlashDecoder, DFlashStart, DFlashTargetConfig, GraphPreparation,
    GraphReplay, RopeSource, StorageChange,
};
use oar_ocr_vl::hunyuanocr::history::{row_suffixes, RepetitionHistory};
use oar_ocr_vl::hunyuanocr::model::{
    build_position_ids, build_prompt, count_image_tokens, decode_tokens, encode_prompt,
    expand_image_tokens_in_place, find_image_span, place_image, prompt_ids, recognition_batch_key,
    validate_counts, validate_image_run, validate_merged_grid,
};
use oar_ocr_vl::hunyuanocr::penalty::{padded_rows, unique_in_vocab, validate_rows};
use oar_ocr_vl::scores::argmax_first;
use tokenizers::models::wordlevel::WordLevel;
use tokenizers::{AddedToken, Tokenizer};

fn float(x: f64) -> Float {
    Float { bits: x.to_bits(), text: format!("{x}") }
}

fn dflash_config() -> DFlashConfig {
    DFlashConfig {
        block_size: 16,
        hidden_size: 1024,
        intermediate_size: 3584,
        num_attention_heads: 16,
        num_hidden_layers: 5,
        num_key_value_heads: 8,
        head_dim: 128,
        vocab_size: 120818,
        rms_norm_eps: float(0.00001),
        rope_theta: float(10000.0),
        dflash_config: DFlashTargetConfig {
            mask_token_id: 120817,
            target_layer_ids: vec![1, 8, 15, 22],
        },
    }
}

fn config() -> HunyuanOcrConfig {
    HunyuanOcrConfig {
        hidden_size: 1024,
        intermediate_size: 3584,
        num_attention_heads: 16,
        num_hidden_layers: 24,
        num_key_value_heads: 8,
        head_dim: 128,
        vocab_size: 120818,
        rms_norm_eps: float(0.00001),
        rope_theta: float(10000.0),
        bos_token_id: 1,
        eos_token_id: 2,
        eod_token_id: 3,
        pad_id: 0,
        image_start_token_id: 10,
        image_end_token_id: 11,
        image_token_id: 12,
        image_newline_token_id: 13,
        use_qk_norm: true,
        rope_scaling: HunyuanOcrRopeScaling {
            kind: None,
            xdrope_section: vec![16, 16, 16, 16],
            factor: None,
            alpha: None,
            beta_fast: None,
            beta_slow: None,
            mscale: None,
            mscale_all_dim: None,
        },
        vision_config: HunyuanOcrVisionConfig {
            hidden_size: 1152,
            intermediate_size: 4304,
            num_attention_heads: 16,
            num_hidden_layers: 27,
            num_channels: 3,
            patch_size: 16,
            spatial_merge_size: 2,
            rms_norm_eps: float(0.00001),
            hidden_act: "gelu".to_string(),
            add_patchemb_bias: true,
            cat_extra_token: 1,
            max_vit_seq_len: 16384,
            max_image_size: 2048,
            img_max_token_num: 4096,
            interpolate_mode: "bilinear".to_string(),
        },
        has_text_config: false,
    }
}

#[test]
fn parses_hunyuan_dflash_config() {
    let cfg = dflash_config();
    assert_eq!(cfg.block_size, 16);
    assert_eq!(cfg.dflash_config.target_layer_ids, [1, 8, 15, 22]);
    assert!(cfg.validate().is_ok());
    assert_eq!(cfg.num_speculative_tokens(), 15);
    assert_eq!(cfg.target_layers(), [2, 9, 16, 23]);
}

#[test]
fn dflash_has_to_fit_its_target() {
    let cfg = dflash_config();
    assert!(cfg.validate_target(1024, 120818, 24).is_ok());
    assert!(cfg.validate_target(2048, 120818, 24).is_err());
    assert!(cfg.validate_target(1024, 120818, 20).is_err());
    assert!(cfg.validate_lm_head(120818, 1024).is_ok());
    assert!(cfg.validate_lm_head(120818, 512).is_err());
}

#[test]
fn incompatible_context_storage_starts_a_new_logical_cache() {
    let mut cache = ContextKv::default();
    cache.append(1, 4, true, 3);
    // Changing the number of heads forces replacement storage.
    let (change, at) = cache.append(2, 4, true, 2);
    assert_eq!(cache.len, 2);
    assert_eq!(cache.storage, Some((2, 4)));
    assert_eq!(change, StorageChange::Allocate);
    assert_eq!(at, 0);
}

#[test]
fn context_grows_behind_what_is_there() {
    let mut cache = ContextKv::default();
    assert_eq!(cache.append(2, 4, true, 3), (StorageChange::Allocate, 0));
    assert_eq!(cache.append(2, 4, true, 2), (StorageChange::Keep, 3));
    assert_eq!(cache.len, 5);
    // Queries stand behind the context and are not kept.
    let (_, at) = cache.with_queries(2, 4, true, 4).unwrap();
    assert_eq!(at, 5);
    assert_eq!(cache.len, 5);
    // Storage of another shape or kind is refused and kept.
    for (heads, head_dim, same_kind) in [(3, 4, true), (2, 8, true), (2, 4, false)] {
        let refused = cache.with_queries(heads, head_dim, same_kind, 4).unwrap_err();
        assert!(matches!(refused, Error::InvalidInput { .. }));
        assert_eq!((cache.len, cache.storage), (5, Some((2, 4))));
    }
    cache.reset();
    assert_eq!(cache.len, 0);
    assert_eq!(
        cache.with_queries(2, 4, true, 4).unwrap_err().message(),
        "HunyuanOCR DFlash: context cache is empty"
    );
}

fn penalized(logits: &[f32], ids: &[u32], penalty: f32) -> u32 {
    let mut scores = logits.to_vec();
    for &id in ids {
        let v = scores[id as usize];
        scores[id as usize] = if v > 0.0 { v / penalty } else { v * penalty };
    }
    argmax_first(&scores.iter().map(|v| v.to_bits()).collect()) as u32
}

#[test]
fn repetition_penalty_cpu_matches_huggingface_semantics() {
    let logits = [
        [10.0f32, 9.0, 8.0, -1.0], // duplicate + out-of-range ids
        [-1.0, -2.0, 3.0, 2.5],    // positive penalized winner
        [-1.0, -1.1, -1.2, -1.3],  // negative penalized winner
    ];
    let histories = [vec![0u32, 0, 99], vec![2u32, 2], vec![0u32]];
    assert!(validate_rows(histories.len(), "history", logits.len()).is_ok());
    let tokens: Vec<u32> = (0..3)
        .map(|row| penalized(&logits[row], &unique_in_vocab(&histories[row], 4), 2.0))
        .collect();
    assert_eq!(tokens, vec![1, 3, 1]);
}

#[test]
fn prompt_tokens_seed_initial_repetition_penalty() {
    let history = RepetitionHistory::from_tokens(4, &vec![0, 0, 99]);
    assert_eq!(*history.ids(), [0]);

    let token = penalized(&[10.0f32, 9.0, 0.0, 0.0], history.ids(), 2.0);
    assert_eq!(token, 1);
}

#[test]
fn penalty_rows_are_checked_and_padded() {
    assert_eq!(
        validate_rows(2, "suffix", 3).unwrap_err().message(),
        "HunyuanOCR: repetition penalty got 2 suffix rows for 3 logits rows"
    );
    let (block, stride) = padded_rows(&vec![vec![1, 99, 2], Vec::new(), vec![3]], 10);
    assert_eq!(stride, 3);
    assert_eq!(
        block,
        [1, 2, u32::MAX, u32::MAX, u32::MAX, u32::MAX, 3, u32::MAX, u32::MAX]
    );
}

#[test]
fn verification_rows_see_the_drafts_before_them() {
    let history = RepetitionHistory::from_tokens(10, &vec![0, 4]);
    let rows = row_suffixes(&history, &vec![1, 1, 0, 2]);
    assert_eq!(rows, [vec![], vec![1], vec![1], vec![1], vec![1, 2]]);
}

#[test]
fn history_keeps_first_occurrences() {
    let mut h = RepetitionHistory::new(5);
    assert!(h.is_empty());
    h.insert(3);
    h.insert(1);
    h.insert(3);
    h.insert(7);
    assert_eq!(*h.ids(), [3, 1]);
    assert!(h.contains(1));
    assert!(!h.contains(7));
}

#[test]
fn v15_prompt_omits_legacy_empty_system_token() {
    let prompt = build_prompt("read", HunyuanOcrVersion::V1_5);
    assert!(prompt.starts_with("<｜hy_begin▁of▁sentence｜><｜hy_place▁holder▁no▁100｜>"));
    assert!(!prompt.contains("<｜hy_place▁holder▁no▁3｜>"));
    assert!(prompt.ends_with("read<｜hy_User｜>"));
}

#[test]
fn v1_prompt_keeps_empty_system_token() {
    let prompt = build_prompt("read", HunyuanOcrVersion::V1);
    assert!(prompt.starts_with("<｜hy_begin▁of▁sentence｜><｜hy_place▁holder▁no▁3｜>"));
}

#[test]
fn nested_text_settings_mark_the_newer_version() {
    let mut cfg = config();
    assert_eq!(cfg.version(), HunyuanOcrVersion::V1);
    cfg.has_text_config = true;
    assert_eq!(cfg.version(), HunyuanOcrVersion::V1_5);
    assert!(validate_dflash_version(HunyuanOcrVersion::V1_5).is_ok());
    assert!(validate_dflash_version(HunyuanOcrVersion::V1).is_err());
}

#[test]
fn generation_settings_name_stop_tokens() {
    assert_eq!(generation_eos_ids(&EosSetting::Absent), None);
    assert_eq!(generation_eos_ids(&EosSetting::Other), None);
    assert_eq!(generation_eos_ids(&EosSetting::Single(7)), Some(vec![7]));
    assert_eq!(generation_eos_ids(&EosSetting::Single(1 << 40)), None);
    assert_eq!(
        generation_eos_ids(&EosSetting::List(vec![Some(7), None, Some(1 << 40), Some(8)])),
        Some(vec![7, 8])
    );
    let ids = merge_stop_ids(&config(), Some(9), &EosSetting::Single(7));
    assert!(ids.windows(2).all(|w| w[0] < w[1]));
    assert!(ids.contains(&7) && ids.contains(&9) && ids.contains(&2));
    let mut tokenizer = Tokenizer::new(WordLevel::default());
    let plain = stop_token_ids(&tokenizer, &config(), &EosSetting::Absent);
    tokenizer
        .add_special_tokens([AddedToken::from("<｜hy_Assistant｜>", true)])
        .unwrap();
    let with_assistant = stop_token_ids(&tokenizer, &config(), &EosSetting::Absent);
    assert!(with_assistant.len() > plain.len());
    assert!(with_assistant.contains(&0));
}

#[test]
fn repetition_penalty_has_a_range() {
    assert!(validate_repetition_penalty(&float(1.0)).is_ok());
    assert!(validate_repetition_penalty(&float(1.08)).is_ok());
    assert!(validate_repetition_penalty(&float(0.5)).is_err());
    assert!(validate_repetition_penalty(&float(f64::NAN)).is_err());
    assert!(validate_repetition_penalty(&float(f64::INFINITY)).is_err());
}

#[test]
fn expanded_prompt_holds_the_image() {
    let cfg = config();
    let mut ids = vec![1, 10, 12, 11, 5];
    expand_image_tokens_in_place(&mut ids, &cfg, 2, 3).unwrap();
    let n = count_image_tokens(2, 3);
    assert_eq!(ids.len(), 4 + n);
    let (start, end) = find_image_span(&ids, &cfg).unwrap();
    assert_eq!((start, end), (1, 2 + n));
    assert!(validate_image_run(start, end, n).is_ok());
    assert!(validate_image_run(start, end, n + 1).is_err());
    let p = build_position_ids(&ids, &cfg, 2, 3).unwrap();
    assert_eq!(p.sequence[4], 4);
    // The grid begins behind the first image token, with lines of four tokens.
    assert_eq!((p.width[3], p.height[3], p.time[3]), (0, 0, 0));
    assert_eq!((p.width[8], p.height[8], p.time[8]), (1, 1, 0));
    assert_eq!((p.width[0], p.height[0], p.time[0]), (0, 0, 0));
    let last = ids.len() - 1;
    assert_eq!(p.time[last], last as i64);
    let mut none = vec![1, 2];
    assert_eq!(
        expand_image_tokens_in_place(&mut none, &cfg, 2, 3).unwrap_err().message(),
        "HunyuanOCR: prompt is missing image placeholder tokens"
    );
    assert!(find_image_span(&none, &cfg).is_err());
    assert!(find_image_span(&vec![10, 1], &cfg).is_err());
}

#[test]
fn grids_of_tower_and_processor_have_to_agree() {
    assert!(validate_merged_grid((2, 3), (1, 2, 3)).is_ok());
    assert_eq!(
        validate_merged_grid((2, 3), (1, 3, 2)).unwrap_err().message(),
        "HunyuanOCR: merged grid mismatch: vision=(2, 3) preprocessor=(1, 3, 2)"
    );
    assert!(validate_counts(1, 2).is_err());
    assert!(validate_counts(2, 2).is_ok());
}

#[test]
fn regions_of_one_size_share_a_key() {
    let a = recognition_batch_key(Some((64, 32)), 16, 2);
    assert_eq!(a, recognition_batch_key(Some((64, 32)), 16, 2));
    assert_ne!(a, recognition_batch_key(Some((128, 32)), 16, 2));
    assert_eq!(recognition_batch_key(None, 16, 2), None);
}

#[test]
fn batch_rows_stop_on_their_own() {
    let prompts = vec![vec![1, 2, 3], vec![4]];
    let mut batch = BatchDecoder::new(&prompts, 100, 4);
    assert_eq!(batch.pad_lens, [0, 2]);
    assert_eq!(batch.kv_len, 3);
    assert!(batch.has_padding());
    assert_eq!(batch.feed_positions(2), [3, 1, 3, 1]);
    assert!(batch.wants_step());
    assert_eq!(batch.step(&vec![20, 9], &vec![9]), Some(vec![20, 9]));
    assert_eq!(batch.feed_positions(1), [4, 1]);
    assert_eq!(batch.step(&vec![21, 50], &vec![9]), Some(vec![21, 0]));
    assert_eq!(batch.kv_len, 5);
    assert_eq!(batch.step(&vec![9, 50], &vec![9]), None);
    assert!(!batch.wants_step());
    assert_eq!(batch.rows[0].generated, [20, 21]);
    assert!(batch.rows[1].generated.is_empty());
    assert_eq!(*batch.rows[0].history.ids(), [1, 2, 3, 20, 21]);
    assert!(batch.penalizes(0, true));
    assert!(!batch.penalizes(0, false));
}

#[test]
fn one_page_and_several_are_prepared_differently() {
    assert_eq!(preparation(1, true), Preparation::Drafting);
    assert_eq!(preparation(1, false), Preparation::SingleTokens);
    assert_eq!(preparation(3, true), Preparation::DropGraphs);
    assert!(!needs_prompt_mask(1, true));
    assert!(needs_prompt_mask(2, true));
    assert!(needs_prompt_mask(1, false));
    assert_eq!(left_padded(&vec![5, 6], 2), [0, 0, 5, 6]);
}

fn rule(seq: &[u32]) -> u32 {
    seq.iter().fold(7u32, |a, &t| (a * 31 + t * 17 + 3) % 23)
}

fn autoregressive(prompt: &[u32], max: usize, stop: u32) -> Vec<u32> {
    let mut out = Vec::new();
    while out.len() < max {
        let mut all = prompt.to_vec();
        all.extend_from_slice(&out);
        let t = rule(&all);
        if t == stop {
            break;
        }
        out.push(t);
    }
    out
}

#[test]
fn speculative_page_is_the_autoregressive_page() {
    let prompt = vec![3, 1, 4];
    for stop in [1u32, 5, 11, 22, 99] {
        let expected = autoregressive(&prompt, 20, stop);
        let first = rule(&prompt);
        let start = DFlashDecoder::start(&prompt, first, 100, 4, 20, &vec![stop]).unwrap();
        let generated = match start {
            DFlashStart::Done => Vec::new(),
            DFlashStart::Decode(mut d) => {
                let mut flip = 0;
                while d.wants_round() {
                    assert_eq!(d.query_ids(77).len(), 4);
                    let mut seq = prompt.clone();
                    seq.extend_from_slice(&d.generated);
                    let mut proposals = Vec::new();
                    let mut targets = vec![rule(&seq)];
                    for k in 0..3 {
                        let p = if k == flip % 4 { 98 } else { rule(&seq) };
                        proposals.push(p);
                        seq.push(p);
                        targets.push(rule(&seq));
                    }
                    flip += 1;
                    let processed = d.verify(&proposals, &targets, &vec![stop]);
                    assert!((1..=4).contains(&processed));
                }
                d.generated
            }
        };
        assert_eq!(generated, expected);
    }
}

#[test]
fn block_without_mask_is_rejected() {
    let error = DFlashDecoder::start(&vec![1], 2, 10, 1, 5, &vec![9]).unwrap_err();
    assert_eq!(
        error.message(),
        "HunyuanOCR DFlash: block_size must include at least one mask position"
    );
}

#[test]
fn graphs_follow_the_context() {
    assert_eq!(replay_graph(10, false, true), GraphReplay::Skip);
    assert_eq!(replay_graph(10, true, true), GraphReplay::Replay);
    assert_eq!(replay_graph(10, true, false), GraphReplay::Skip);
    assert_eq!(replay_graph(1 << 20, true, true), GraphReplay::Invalidate);
    assert_eq!(plan_append(10, 0), ContextAppend::Nothing);
    assert_eq!(plan_append(10, 5), ContextAppend::Append { start: 10, drop_graph: false });
    assert_eq!(
        plan_append(16_384, 1),
        ContextAppend::Append { start: 16_384, drop_graph: true }
    );
    assert!(!reset_drops_graph(16_384));
    assert!(reset_drops_graph(16_385));
    assert!(matches!(rope_source(16_380, 4), RopeSource::Table { start: 16_380, len: 4 }));
    match rope_source(16_380, 5) {
        RopeSource::Positions(p) => assert_eq!(p, [16_380, 16_381, 16_382, 16_383, 16_384]),
        other => panic!("{other:?}"),
    }
    assert_eq!(prepare_graph(true, true, true, true, true), GraphPreparation::Invalidate);
    assert_eq!(prepare_graph(false, true, true, false, true), GraphPreparation::Capture);
    assert_eq!(prepare_graph(false, false, true, false, true), GraphPreparation::Nothing);
    let shapes = dflash_config().graph_shapes();
    assert_eq!(shapes.query_input, (1, 16, 1024));
    assert_eq!(shapes.query_lengths, (0, 16));
}

#[test]
fn text_is_decoded_and_encoded_by_the_tokenizer() {
    let mut tokenizer = Tokenizer::new(WordLevel::default());
    let prompt = build_prompt("read", HunyuanOcrVersion::V1_5);
    tokenizer
        .add_special_tokens([AddedToken::from(prompt.clone(), true)])
        .unwrap();
    tokenizer.add_tokens([AddedToken::from(" word ", false)]).unwrap();
    assert_eq!(encode_prompt(&tokenizer, &prompt).unwrap(), [0]);
    assert_eq!(decode_tokens(&tokenizer, &vec![0, 1]).unwrap(), "word");
    assert!(encode_prompt(&tokenizer, "unknown")
        .unwrap_err()
        .message()
        .starts_with("HunyuanOCR: tokenizer encode failed: "));
}

#[test]
fn parsing_options_have_defaults() {
    let options = HunyuanOcrParseOptions::default();
    assert!(options.max_new_tokens > 0);
    assert!(!options.prompt.is_empty());
}

#[test]
fn penalty_comes_from_the_checkpoint_or_its_generation() {
    let value = |p: Float| f64::from_bits(p.bits);
    assert_eq!(value(checkpoint_penalty(None, HunyuanOcrVersion::V1)), 1.0);
    assert_eq!(value(checkpoint_penalty(None, HunyuanOcrVersion::V1_5)), 1.08);
    assert_eq!(value(checkpoint_penalty(Some(float(1.03)), HunyuanOcrVersion::V1_5)), 1.03);
    assert_eq!(checkpoint_penalty(None, HunyuanOcrVersion::V1_5).text, "1.08");
}

#[test]
fn image_processor_needs_three_channels_and_patches() {
    let three = || vec![float(0.5), float(0.5), float(0.5)];
    let mut cfg = HunyuanOcrImageProcessorConfig {
        min_pixels: 1,
        max_pixels: 2,
        patch_size: 16,
        resample: None,
        temporal_patch_size: 1,
        merge_size: 2,
        image_mean: three(),
        image_std: three(),
    };
    assert!(cfg.validate().is_ok());
    cfg.merge_size = 0;
    assert!(cfg.validate().is_err());
    cfg.image_std = vec![];
    assert!(cfg.validate().is_err());
}

#[test]
fn image_is_placed_in_its_prompt() {
    let cfg = config();
    let mut ids = vec![1, 10, 12, 11, 5];
    expand_image_tokens_in_place(&mut ids, &cfg, 2, 3).unwrap();
    let n = count_image_tokens(2, 3);
    let place = place_image(&ids, &cfg, (2, 3), (1, 2, 3), n).unwrap();
    assert_eq!((place.start, place.end), (1, 2 + n));
    assert_eq!(place.positions.time.len(), ids.len());
    let message = |r: Result<_, oar_ocr_vl::error::Error>| match r {
        Ok(_) => panic!("placed"),
        Err(e) => e.message().to_string(),
    };
    assert!(message(place_image(&ids, &cfg, (3, 2), (1, 2, 3), n)).contains("merged grid mismatch"));
    assert!(message(place_image(&ids, &cfg, (2, 3), (1, 2, 3), 4)).contains("run length mismatch"));
    assert!(message(place_image(&vec![1], &cfg, (2, 3), (1, 2, 3), 4)).contains("not found"));
    assert!(message(place_image(&vec![12, 10, 12, 11], &cfg, (2, 3), (1, 2, 3), 1))
        .contains("exceeds input length"));
}

#[test]
fn prompt_is_expanded_behind_the_tokenizer() {
    let mut tokenizer = Tokenizer::new(WordLevel::default());
    let prompt = build_prompt("read", HunyuanOcrVersion::V1_5);
    let parts: Vec<&str> = prompt.split_inclusive('>').collect();
    tokenizer
        .add_special_tokens(parts.iter().map(|part| AddedToken::from(*part, true)))
        .unwrap();
    let mut cfg = config();
    let id = |token: &str| tokenizer.token_to_id(token).unwrap();
    cfg.image_start_token_id = id("<｜hy_place▁holder▁no▁100｜>");
    cfg.image_token_id = id("<｜hy_place▁holder▁no▁102｜>");
    cfg.image_end_token_id = id("<｜hy_place▁holder▁no▁101｜>");
    let ids = prompt_ids(&tokenizer, "read", HunyuanOcrVersion::V1_5, &cfg, 1, 2).unwrap();
    assert_eq!(ids.iter().filter(|&&t| t == cfg.image_token_id).count(), 5);
    cfg.image_end_token_id = 999;
    assert!(prompt_ids(&tokenizer, "read", HunyuanOcrVersion::V1_5, &cfg, 1, 2).is_err());
}

/// Made-up logits of twelve tokens that depend on all tokens before.
fn logits(seq: &[u32]) -> Vec<f32> {
    let mix = |t: u32| {
        seq.iter().fold(t + 1, |a, &s| a.wrapping_mul(2_654_435_761).wrapping_add(s + 7) >> 1)
    };
    (0..12).map(|t| (mix(t) % 1000) as f32 / 100.0 - 4.0).collect()
}

/// What plain decoding gives behind a prompt.
fn plain_page(prompt: &[u32], stops: &[u32], max: usize) -> Vec<u32> {
    let mut page = Vec::new();
    while page.len() < max {
        let mut seen = prompt.to_vec();
        seen.extend_from_slice(&page);
        let next = penalized(&logits(&seen), &unique_in_vocab(&seen, 12), 1.3);
        if stops.contains(&next) {
            break;
        }
        page.push(next);
    }
    page
}

/// What decoding with drafts gives behind a prompt; `drafts` are good, bad or mixed.
fn drafted_page(prompt: &Vec<u32>, stops: &Vec<u32>, max: usize, drafts: &str) -> Vec<u32> {
    let good = plain_page(prompt, stops, max);
    let first = penalized(&logits(prompt), &unique_in_vocab(prompt, 12), 1.3);
    let mut d = match DFlashDecoder::start(prompt, first, 12, 4, max, stops).unwrap() {
        DFlashStart::Done => return Vec::new(),
        DFlashStart::Decode(d) => d,
    };
    let mut rounds = 0;
    while d.wants_round() {
        let proposals: Vec<u32> = (0..3)
            .map(|k| match drafts {
                "good" => *good.get(d.generated.len() + k).unwrap_or(&0),
                "mixed" if k == 0 => *good.get(d.generated.len()).unwrap_or(&0),
                _ => 5,
            })
            .collect();
        let suffixes = row_suffixes(&d.history, &proposals);
        let targets: Vec<u32> = (0..4)
            .map(|row| {
                let mut context = prompt.clone();
                context.extend_from_slice(&d.generated);
                context.extend_from_slice(&proposals[..row]);
                let mut ids = d.history.ids().clone();
                ids.extend_from_slice(&suffixes[row]);
                penalized(&logits(&context), &ids, 1.3)
            })
            .collect();
        d.verify(&proposals, &targets, stops);
        rounds += 1;
    }
    assert!(rounds <= d.generated.len());
    d.generated
}

#[test]
fn penalized_page_does_not_depend_on_its_drafts() {
    let stops = vec![11u32];
    let mut decoded = 0;
    for seed in 0..12u32 {
        let prompt = vec![3, 1, seed, 1];
        let expected = plain_page(&prompt, &stops, 24);
        decoded += expected.len();
        for drafts in ["good", "bad", "mixed"] {
            assert_eq!(drafted_page(&prompt, &stops, 24, drafts), expected);
        }
        assert!(drafted_page(&prompt, &stops, 0, "good").is_empty());
    }
    assert!(decoded > 40);
}
