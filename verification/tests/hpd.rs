use oar_ocr_vl::error::Error;
use oar_ocr_vl::float::Float;
use oar_ocr_vl::hpd_parsing::config::{HpdParsingConfig, HpdVisionConfig};
use oar_ocr_vl::hpd_parsing::model::{
    batch_rows, build_prompt, child_counts, decode_protocol_tokens, finish_decode, finish_encode,
    finish_page, image_span, last_of_rows, prompt_ids, protocol_tokens, validate_counts,
    validate_generation_length, HpdGenerationConfig, HpdOutput,
};
use oar_ocr_vl::hpd_parsing::processing::{
    can_preprocess, closest_ratio, cut_tiles, max_grid_blocks, preprocess_image, target_ratios, tile_images,
};
use oar_ocr_vl::hpd_parsing::scheduler::{
    assemble, child_token_limit, Branch, BranchKind, ChildStart, Rules, Scheduler, SchedulerOutput,
};
use oar_ocr_vl::hpd_parsing::vision::{shuffled_patches, validate_patch_count};
use oar_ocr_vl::image::RgbBytes;
use oar_ocr_vl::sdar::SdarConfig;
use tokenizers::models::wordlevel::WordLevel;
use tokenizers::{AddedToken, Tokenizer};

fn float(x: f64) -> Float {
    Float { bits: x.to_bits(), text: format!("{x}") }
}

fn config() -> HpdParsingConfig {
    HpdParsingConfig {
        vision_config: HpdVisionConfig {
            hidden_size: 1024,
            intermediate_size: 4096,
            num_hidden_layers: 24,
            num_attention_heads: 16,
            num_channels: 3,
            image_size: 448,
            patch_size: 14,
            layer_norm_eps: float(0.000001),
            hidden_act: "gelu".to_string(),
            qkv_bias: true,
            norm_type: "layer_norm".to_string(),
        },
        llm_config: SdarConfig {
            vocab_size: 151681,
            hidden_size: 1024,
            intermediate_size: 3072,
            num_hidden_layers: 28,
            num_attention_heads: 16,
            num_key_value_heads: 8,
            max_position_embeddings: 40960,
            head_dim: Some(128),
            attention_bias: false,
            hidden_act: "silu".to_string(),
            eos_token_id: Some(151645),
            pad_token_id: Some(151643),
        },
        downsample_ratio: float(0.5),
        force_image_size: 448,
        min_dynamic_patch: 1,
        max_dynamic_patch: 24,
        use_thumbnail: true,
        fork_token_id: 151679,
        child_token_id: 151680,
        eos_token_id: 151645,
        pad_token_id: 151643,
    }
}

#[test]
fn parses_official_config_shape() {
    let cfg = config();
    assert!(cfg.validate().is_ok());
    assert_eq!(cfg.image_tokens_per_tile().unwrap(), 256);
}

#[test]
fn downsample_ratio_outside_the_unit_interval_is_rejected() {
    for ratio in [0.0, -0.5, 1.5, f64::NAN, f64::INFINITY] {
        let mut cfg = config();
        cfg.downsample_ratio = float(ratio);
        let error = cfg.validate().unwrap_err();
        assert!(matches!(error, Error::Config { .. }));
        assert_eq!(error.message(), "HPD-Parsing downsample_ratio must be in (0, 1]");
    }
}

#[test]
fn unsupported_activation_is_named() {
    let mut cfg = config();
    cfg.vision_config.hidden_act = "relu".to_string();
    assert_eq!(
        cfg.validate().unwrap_err().message(),
        "HPD-Parsing unsupported InternViT activation/norm: relu/layer_norm"
    );
}

#[test]
fn prompt_matches_internvl_2_5_template() {
    assert_eq!(
        build_prompt("document parsing with fork.", 2),
        "<|im_start|>system\n你是书生·万象，英文名是InternVL，是由上海人工智能实验室、清华大学及多家合作单位联合开发的多模态大语言模型。<|im_end|>\n<|im_start|>user\n<img><IMG_CONTEXT><IMG_CONTEXT></img>\ndocument parsing with fork.<|im_end|>\n<|im_start|>assistant\n"
    );
}

#[test]
fn default_enables_official_hpd_acceleration() {
    let cfg = HpdGenerationConfig::default();
    assert!(cfg.use_mtp);
    assert_eq!(cfg.num_speculative_tokens, 6);
    assert_eq!(cfg.max_active_branches, 64);
}

#[test]
fn scheduler_rejects_an_empty_active_pool() {
    let cfg = HpdGenerationConfig { max_active_branches: 0, ..HpdGenerationConfig::default() };
    assert!(cfg.validate().is_err());
}

#[test]
fn protocol_decode_keeps_structure_and_removes_terminators() {
    let mut tokenizer = Tokenizer::new(WordLevel::default());
    tokenizer
        .add_special_tokens([
            AddedToken::from("<BLOCK>", true),
            AddedToken::from("<CHILD>", true),
            AddedToken::from("<|im_end|>", true),
        ])
        .unwrap();
    let block = tokenizer.token_to_id("<BLOCK>").unwrap();
    let child = tokenizer.token_to_id("<CHILD>").unwrap();
    let end = tokenizer.token_to_id("<|im_end|>").unwrap();

    let decoded = decode_protocol_tokens(&tokenizer, &vec![block, child, end], &vec![end]).unwrap();
    assert!(decoded.contains("<BLOCK>"));
    assert!(decoded.contains("<CHILD>"));
    assert!(!decoded.contains("<|im_end|>"));
}

#[test]
fn missing_protocol_token_is_named() {
    let tokenizer = Tokenizer::new(WordLevel::default());
    let error = protocol_tokens(&tokenizer, &config()).unwrap_err();
    assert_eq!(error.message(), "HPD-Parsing tokenizer is missing \"<IMG_CONTEXT>\"");
}

#[test]
fn ratios_are_unique_and_area_sorted() {
    let ratios = target_ratios(1, 4);
    assert_eq!(ratios.len(), 8);
    assert!(ratios.windows(2).all(|pair| { pair[0].0 * pair[0].1 <= pair[1].0 * pair[1].1 }));
}

#[test]
fn ratio_selection_tracks_portrait_and_landscape() {
    let ratios = target_ratios(1, 25);
    let landscape = closest_ratio(1800, 900, 448, &ratios);
    let portrait = closest_ratio(900, 1800, 448, &ratios);
    assert!(landscape.0 > landscape.1);
    assert!(portrait.1 > portrait.0);
}

#[test]
fn ratio_selection_matches_official_fixture_choices() {
    let ratios = target_ratios(1, 25);
    assert_eq!(closest_ratio(514, 64, 448, &ratios), (8, 1));
    assert_eq!(closest_ratio(760, 865, 448, &ratios), (2, 2));
    assert_eq!(closest_ratio(248, 193, 448, &ratios), (5, 4));
    assert_eq!(closest_ratio(720, 1150, 448, &ratios), (2, 3));
}

#[test]
fn no_ratio_means_one_tile() {
    assert_eq!(closest_ratio(100, 100, 448, &Vec::new()), (1, 1));
}

#[test]
fn thumbnail_leaves_room_in_the_grid() {
    assert_eq!(max_grid_blocks(24, true), 25);
    assert_eq!(max_grid_blocks(24, false), 24);
}

fn counted(width: u32, height: u32) -> RgbBytes {
    let n = (width * height * 3) as usize;
    RgbBytes { width, height, pixels: (0..n).map(|i| (i % 251) as u8).collect() }
}

#[test]
fn tiles_hold_the_pixels_of_their_place() {
    let image = counted(4, 2);
    let tiles = cut_tiles(&image, 2, 2, 1);
    assert_eq!(tiles.len(), 2);
    assert_eq!(tiles[1].pixels[0], image.pixels[6]);
    assert_eq!(tiles[1].pixels[6], image.pixels[18]);
    assert_eq!(tiles[0].pixels[6], image.pixels[12]);
}

#[test]
fn thumbnail_is_added_behind_several_tiles() {
    let tiles = tile_images(&counted(4, 2), 2, 2, 1, true);
    assert_eq!(tiles.len(), 3);
    assert_eq!((tiles[2].width, tiles[2].height), (2, 2));
    assert_eq!(tile_images(&counted(2, 2), 2, 1, 1, true).len(), 1);
    let shrunk = tile_images(&counted(8, 8), 2, 1, 1, false);
    assert_eq!(shrunk[0].pixels.len(), 12);
}

#[test]
fn patches_are_merged_block_by_block() {
    assert_eq!(
        shuffled_patches(4, 2),
        [0, 1, 4, 5, 2, 3, 6, 7, 8, 9, 12, 13, 10, 11, 14, 15]
    );
    assert!(validate_patch_count(16, 4).is_ok());
    assert_eq!(
        validate_patch_count(15, 4).unwrap_err().message(),
        "HPD-Parsing received 15 patches per tile, expected 16"
    );
}

fn rules() -> Rules {
    Rules {
        fork_token_id: 7,
        stop_token_ids: vec![9],
        max_position_embeddings: 100,
        max_active_branches: 2,
    }
}

#[test]
fn forked_child_is_decoded_beside_its_parent() {
    let rules = rules();
    let mut s = Scheduler::new(Branch::start(BranchKind::Parent, 10, 1, 5, true));
    s.begin_round(2);
    assert!(s.advance_greedy(&rules, &vec![7]).is_empty());
    s.finish_round(&rules, &Vec::new());
    s.begin_round(2);
    let events = s.advance_greedy(&rules, &vec![2]);
    assert_eq!(events.len(), 1);
    assert_eq!((events[0].branch_index, events[0].prefix_len), (0, 11));
    let start = ChildStart { prefix_len: events[0].prefix_len, pending_token: 5, max_new_tokens: 3 };
    s.finish_round(&rules, &vec![start]);
    assert_eq!(s.active.len(), 2);
    s.begin_round(2);
    assert!(s.advance_greedy(&rules, &vec![9, 9]).is_empty());
    s.finish_round(&rules, &Vec::new());
    s.begin_round(2);
    s.advance_greedy(&rules, &vec![0, 0]);
    s.finish_round(&rules, &Vec::new());
    assert!(s.is_done());
    let out = s.into_output().unwrap();
    assert_eq!(out.parent_tokens, [1, 7, 2, 9]);
    assert_eq!(out.children, [[5, 9]]);
    assert_eq!(out.runtime.scheduler_rounds, 4);
    assert_eq!(out.runtime.peak_active_branches, 2);
    assert_eq!(out.runtime.forked_branches, 1);
    assert_eq!(out.runtime.shared_prefix_tokens, 11);
    assert_eq!(assemble(&out.parent_tokens, &out.children, 7, 8), [1, 8, 5, 9, 2, 9]);
}

#[test]
fn drafted_page_is_the_greedy_page() {
    let choices = [1u32, 2, 3, 4, 5, 9];
    let mut greedy = Scheduler::new(Branch::start(BranchKind::Parent, 10, choices[0], 50, true));
    let rules = rules();
    let mut i = 1;
    while !greedy.is_done() {
        greedy.begin_round(2);
        greedy.advance_greedy(&rules, &vec![choices.get(i).copied().unwrap_or(0)]);
        greedy.finish_round(&rules, &Vec::new());
        i += 1;
    }
    let mut drafted = Scheduler::new(Branch::start(BranchKind::Parent, 10, choices[0], 50, true));
    drafted.begin_round(2);
    assert_eq!(drafted.draft_len(2, 100), 2);
    drafted.advance_mtp(&rules, &vec![vec![2, 8]], &vec![vec![2, 3, 0]], 2);
    drafted.finish_round(&rules, &Vec::new());
    drafted.begin_round(2);
    drafted.advance_mtp(&rules, &vec![vec![4, 5]], &vec![vec![4, 5, 9]], 2);
    drafted.finish_round(&rules, &Vec::new());
    drafted.begin_round(2);
    drafted.advance_mtp(&rules, &vec![vec![0, 0]], &vec![vec![1, 1, 1]], 2);
    drafted.finish_round(&rules, &Vec::new());
    assert!(drafted.is_done());
    let a = greedy.into_output().unwrap();
    let b = drafted.into_output().unwrap();
    assert_eq!(a.parent_tokens, choices);
    assert_eq!(a.parent_tokens, b.parent_tokens);
    assert_eq!(b.runtime.mtp_drafted_tokens, 6);
    assert_eq!(b.runtime.mtp_accepted_tokens, 3);
}

#[test]
fn forks_of_a_drafted_round_get_their_children_in_order() {
    let rules = rules();
    let mut s = Scheduler::new(Branch::start(BranchKind::Parent, 10, 7, 50, true));
    s.begin_round(2);
    let events = s.advance_mtp(&rules, &vec![vec![3, 7]], &vec![vec![3, 7, 9]], 2);
    let prefixes: Vec<usize> = events.iter().map(|e| e.prefix_len).collect();
    assert_eq!(prefixes, [10, 12]);
    let starts = vec![
        ChildStart { prefix_len: 10, pending_token: 41, max_new_tokens: 1 },
        ChildStart { prefix_len: 12, pending_token: 42, max_new_tokens: 1 },
    ];
    s.finish_round(&rules, &starts);
    while !s.is_done() {
        s.begin_round(2);
        let next = vec![0; s.active.len()];
        assert!(s.advance_greedy(&rules, &next).is_empty());
        s.finish_round(&rules, &Vec::new());
    }
    let out = s.into_output().unwrap();
    assert_eq!(out.parent_tokens, [7, 3, 7, 9]);
    assert_eq!(out.children, [[41], [42]]);
    assert_eq!(assemble(&out.parent_tokens, &out.children, 7, 8), [8, 41, 3, 8, 42, 9]);
}

#[test]
fn child_needs_room_in_the_context() {
    assert_eq!(child_token_limit(10, 50, 30).unwrap(), 19);
    assert_eq!(child_token_limit(10, 5, 30).unwrap(), 5);
    assert_eq!(
        child_token_limit(29, 5, 30).unwrap_err().message(),
        "HPD-Parsing child at KV position 29 has no context capacity"
    );
}

#[test]
fn page_is_put_together_and_decoded() {
    let mut tokenizer = Tokenizer::new(WordLevel::default());
    tokenizer
        .add_special_tokens([
            AddedToken::from("<FORK>", true),
            AddedToken::from("<CHILD>", true),
            AddedToken::from("<|im_end|>", true),
            AddedToken::from("word", true),
        ])
        .unwrap();
    let scheduled = SchedulerOutput {
        parent_tokens: vec![0, 2],
        children: vec![vec![3, 2]],
        runtime: Default::default(),
    };
    let out = finish_page(&tokenizer, scheduled, 0, 1, &vec![2]).unwrap();
    assert_eq!(out.token_ids, [1, 3, 2, 2]);
    assert_eq!(out.text, "<CHILD> word");
    assert_eq!(out.parent_token_count, 2);
    assert_eq!(out.child_token_counts, [2]);
    assert_eq!(HpdOutput::empty().text, "");
}

#[test]
fn request_errors_are_reported() {
    assert!(validate_counts(2, 2).is_ok());
    assert!(validate_counts(2, 1).is_err());
    assert!(validate_generation_length(10, 20, 30).is_ok());
    assert!(validate_generation_length(10, 21, 30).is_err());
    assert!(validate_generation_length(1, usize::MAX, 30).is_err());
    assert_eq!(finish_encode(Ok(vec![1])).unwrap(), [1]);
    assert!(finish_encode(Err("x".to_string())).is_err());
    assert_eq!(finish_decode(Ok(" a ".to_string())).unwrap(), "a");
    assert!(finish_decode(Err("x".to_string())).is_err());
    assert_eq!(image_span(&vec![1, 5, 5, 2], 5, 2).unwrap(), (1, 3));
    assert!(image_span(&vec![5, 1, 5], 5, 2).is_err());
    assert!(image_span(&vec![1, 2], 5, 1).is_err());
    assert_eq!(child_counts(&vec![vec![1, 2], Vec::new()]), [2, 0]);
    assert_eq!(last_of_rows(&vec![vec![1, 2], vec![3]]).unwrap(), [2, 3]);
    assert!(last_of_rows(&vec![Vec::new()]).is_err());
}

#[test]
fn page_is_cut_into_the_chosen_grid() {
    let inputs = preprocess_image(&counted(760, 865), &config()).unwrap();
    // A grid of two by two, and the thumbnail.
    assert_eq!((inputs.num_tiles, inputs.tiles.len()), (5, 5));
    assert_eq!((inputs.grid, inputs.patch_dim), (32, 588));
    assert!(inputs.tiles.iter().all(|t| (t.width, t.height) == (448, 448)));
    assert_eq!(
        preprocess_image(&counted(0, 5), &config()).unwrap_err().message(),
        "HPD-Parsing cannot process an empty image"
    );
}

#[test]
fn choices_are_split_into_rows() {
    let rows = batch_rows(&vec![1, 2, 3, 4, 5, 6], 2, 3).unwrap();
    assert_eq!(rows, [[1, 2, 3], [4, 5, 6]]);
    assert_eq!(last_of_rows(&rows).unwrap(), [3, 6]);
    assert_eq!(
        batch_rows(&Vec::new(), usize::MAX, 2).unwrap_err().message(),
        "HPD batched logits row count overflows usize"
    );
}

#[test]
fn prompt_has_to_leave_room_for_the_page() {
    let mut tokenizer = Tokenizer::new(WordLevel::default());
    tokenizer.add_special_tokens([AddedToken::from(build_prompt("go", 1), true)]).unwrap();
    assert_eq!(prompt_ids(&tokenizer, "go", 1, 9, 10).unwrap(), [0]);
    assert_eq!(
        prompt_ids(&tokenizer, "go", 1, 10, 10).unwrap_err().message(),
        "HPD-Parsing prompt (1) plus max_new_tokens (10) exceeds context limit 10"
    );
}

#[test]
fn totals_of_a_page_agree() {
    let rules = rules();
    let limit = 6;
    let mut s = Scheduler::new(Branch::start(BranchKind::Parent, 10, 7, limit, true));
    let mut round = 0u32;
    while !s.is_done() {
        s.begin_round(2);
        assert!((1..=2).contains(&s.active.len()));
        // Parents fork at every other token; children go on until their limit.
        let next = vec![if round % 2 == 0 { 3 } else { 7 }; s.active.len()];
        let events = s.advance_greedy(&rules, &next);
        let starts: Vec<ChildStart> = events
            .iter()
            .map(|e| ChildStart {
                prefix_len: e.prefix_len,
                pending_token: 20 + round,
                max_new_tokens: child_token_limit(e.prefix_len, limit, 100).unwrap(),
            })
            .collect();
        s.finish_round(&rules, &starts);
        round += 1;
    }
    let out = s.into_output().unwrap();
    let forks = out.parent_tokens.iter().filter(|&&t| t == 7).count();
    assert!(forks > 1);
    assert_eq!(out.children.len(), forks);
    assert_eq!(out.runtime.forked_branches, forks);
    assert!((1..=2).contains(&out.runtime.peak_active_branches));
    assert!((1..=limit).contains(&out.parent_tokens.len()));
    assert!(out.children.iter().all(|c| (1..=limit).contains(&c.len())));
}

/// The choice in the machine's own doubles.
fn chosen(width: u32, height: u32, size: u32, ratios: &[(usize, usize)]) -> (usize, usize) {
    let aspect = f64::from(width) / f64::from(height);
    let area = f64::from(width) * f64::from(height);
    let all: Vec<((usize, usize), f64, f64)> = ratios
        .iter()
        .map(|&(cols, rows)| {
            let target = f64::from(size).powi(2) * (cols * rows) as f64;
            let gap = (aspect - cols as f64 / rows as f64).abs();
            ((cols, rows), (area - target).abs(), gap)
        })
        .collect();
    let mut near: Vec<_> = all.iter().copied().filter(|c| c.2 <= 0.2).collect();
    if near.is_empty() {
        near = all;
    }
    near.sort_by(|a, b| a.1.total_cmp(&b.1));
    near.into_iter().take(3).min_by(|a, b| a.2.total_cmp(&b.2)).map_or((1, 1), |c| c.0)
}

#[test]
fn ratios_of_any_size_are_compared_like_doubles() {
    let mut seed = 88_172_645_463_325_252u64;
    let mut random = || {
        seed ^= seed << 13;
        seed ^= seed >> 7;
        seed ^= seed << 17;
        seed
    };
    for _ in 0..3000 {
        let width = (random() >> (random() % 33 + 31)) as u32;
        let height = ((random() >> (random() % 33 + 31)) as u32).max(1);
        let size = (random() >> (random() % 33 + 31)) as u32;
        let ratios: Vec<(usize, usize)> = (0..random() % 9)
            .map(|_| {
                let cols = (random() >> (random() % 64)) as usize;
                let most = usize::MAX / cols.max(1);
                (cols, ((random() >> (random() % 64)) as usize).min(most))
            })
            .collect();
        assert_eq!(
            closest_ratio(width, height, size, &ratios),
            chosen(width, height, size, &ratios),
            "{width} {height} {size} {ratios:?}"
        );
    }
    let odd = vec![(0, 0), (4, 0), (usize::MAX, 1), (1, usize::MAX), (0, 9)];
    assert_eq!(closest_ratio(10, 10, 1, &odd), chosen(10, 10, 1, &odd));
}

#[test]
fn chosen_grid_is_not_surpassed_in_area_and_aspect() {
    let ratios = target_ratios(1, 12);
    let apart = |&(cols, rows): &(usize, usize), width: u32, height: u32| {
        let target = 448f64 * 448.0 * (cols * rows) as f64;
        let area = (f64::from(width) * f64::from(height) - target).abs();
        (area, (f64::from(width) / f64::from(height) - cols as f64 / rows as f64).abs())
    };
    for (width, height) in [(514, 64), (760, 865), (248, 193), (720, 1150), (3000, 2000)] {
        let chosen = closest_ratio(width, height, 448, &ratios);
        assert!(ratios.contains(&chosen));
        let best = apart(&chosen, width, height);
        let within = ratios.iter().any(|r| apart(r, width, height).1 <= 0.2);
        for other in ratios.iter().map(|r| apart(r, width, height)) {
            if !within || other.1 <= 0.2 {
                assert!(!(other.0 < best.0 && other.1 < best.1));
            }
        }
    }
}

#[test]
fn pages_that_are_too_large_are_refused() {
    let mut cfg = config();
    assert!(can_preprocess(&counted(760, 865), &cfg));
    let longest = 0x40_0000;
    let wide = RgbBytes { width: longest + 1, height: 0, pixels: Vec::new() };
    assert!(!can_preprocess(&wide, &cfg));
    cfg.max_dynamic_patch = usize::MAX;
    assert!(!can_preprocess(&counted(760, 865), &cfg));
    cfg.max_dynamic_patch = 12;
    cfg.force_image_size = longest as usize;
    assert!(!can_preprocess(&counted(760, 865), &cfg));
    cfg.force_image_size = 0;
    assert!(!can_preprocess(&counted(760, 865), &cfg));
}
