use oar_ocr_vl::error::Error;
use oar_ocr_vl::float::Float;
use oar_ocr_vl::image::{resized, RgbBytes};
use oar_ocr_vl::ovisocr2::config::{
    OvisOcr2Config, OvisOcr2ImageProcessorConfig, OvisOcr2ImageProcessorSize,
    OvisOcr2RopeParameters, OvisOcr2TextConfig, OvisOcr2VisionConfig,
};
use oar_ocr_vl::ovisocr2::gated_delta::{validate_cuda_head_dim, validate_inputs, validate_kinds};
use oar_ocr_vl::ovisocr2::model::{
    build_position_ids, build_prompt, build_stop_token_ids, check_request, check_token_id,
    check_tokenizer, decode_page, decode_position, decode_tokens, encode_prompt, finish_encode,
    image_span, place_image, require_token_id, validate_counts, validate_generation_length,
    Admission,
    OvisOcr2ParseOptions,
};
use oar_ocr_vl::ovisocr2::output::{
    clean_truncated_repeats, filter_visual_image_tags, postprocess_recognition_text,
    postprocess_text,
};
use oar_ocr_vl::ovisocr2::processing::{plan_patches, request_resize};
use oar_ocr_vl::ovisocr2::text::{
    conv_step, interleaved_axis_ids, kv_groups, linear_shape, rotary_plan, token_mixer,
    validate_layer_count, ConvStep, TokenMixer,
};
use oar_ocr_vl::ovisocr2::vision::{
    corners, merge_grouped_spatial_coordinates, merged_len, validate_grid, validate_position_table,
};
use oar_ocr_vl::patches::check_patch_values;
use oar_ocr_vl::recognition::RecognitionTask;
use oar_ocr_vl::scores::argmax_first;
use tokenizers::models::wordlevel::WordLevel;
use tokenizers::{AddedToken, Tokenizer};

fn float(x: f64) -> Float {
    Float { bits: x.to_bits(), text: format!("{x}") }
}

fn processor_config() -> OvisOcr2ImageProcessorConfig {
    OvisOcr2ImageProcessorConfig {
        size: OvisOcr2ImageProcessorSize { shortest_edge: 256 * 256, longest_edge: 4096 * 4096 },
        patch_size: 16,
        temporal_patch_size: 2,
        merge_size: 2,
        image_mean: vec![float(0.5), float(0.5), float(0.5)],
        image_std: vec![float(0.5), float(0.5), float(0.5)],
        do_resize: true,
        do_rescale: true,
        do_normalize: true,
        do_convert_rgb: true,
        rescale_factor: float((1.0f32 / 255.0) as f64),
        resample: None,
    }
}

fn vision_config() -> OvisOcr2VisionConfig {
    OvisOcr2VisionConfig {
        model_type: "qwen3_5".to_string(),
        depth: 12,
        hidden_size: 768,
        intermediate_size: 3072,
        num_heads: 12,
        in_channels: 3,
        patch_size: 16,
        spatial_merge_size: 2,
        temporal_patch_size: 2,
        out_hidden_size: 1024,
        num_position_embeddings: 2304,
        hidden_act: "GeluPytorchTanh".to_string(),
        deepstack_visual_indexes: Vec::new(),
    }
}

fn config() -> OvisOcr2Config {
    let layer = |name: &str| name.to_string();
    OvisOcr2Config {
        architectures: vec!["Qwen3_5ForConditionalGeneration".to_string()],
        model_type: "qwen3_5".to_string(),
        text_config: OvisOcr2TextConfig {
            model_type: "qwen3_5_text".to_string(),
            vocab_size: 248320,
            hidden_size: 1024,
            intermediate_size: 3584,
            num_hidden_layers: 4,
            num_attention_heads: 8,
            num_key_value_heads: 2,
            head_dim: 256,
            hidden_act: "Silu".to_string(),
            max_position_embeddings: 262144,
            rms_norm_eps: float(1e-6),
            rope_parameters: OvisOcr2RopeParameters {
                rope_type: "default".to_string(),
                mrope_section: vec![11, 11, 10],
                mrope_interleaved: true,
                rope_theta: float(10000000.0),
                partial_rotary_factor: float(0.25),
            },
            layer_types: vec![
                layer("linear_attention"),
                layer("linear_attention"),
                layer("linear_attention"),
                layer("full_attention"),
            ],
            linear_conv_kernel_dim: 4,
            linear_key_head_dim: 128,
            linear_value_head_dim: 128,
            linear_num_key_heads: 16,
            linear_num_value_heads: 16,
            eos_token_id: 248044,
            attention_bias: false,
            attn_output_gate: true,
            tie_word_embeddings: true,
        },
        vision_config: vision_config(),
        image_token_id: 248056,
        video_token_id: 248057,
        vision_start_token_id: 248053,
        vision_end_token_id: 248054,
        tie_word_embeddings: true,
    }
}

#[test]
fn parses_local_checkpoint_shape() {
    let cfg = config();
    cfg.validate().unwrap();
    assert_eq!(cfg.text_config.layer_types.len(), 4);
    assert_eq!(cfg.vision_config.position_grid_size().unwrap(), 48);
    assert_eq!(cfg.vision_config.head_dim().unwrap(), 64);
    assert!(cfg.tie_word_embeddings());
    assert_eq!(cfg.text_config.hidden_act, "Silu");
    assert_eq!(cfg.vision_config.hidden_act, "GeluPytorchTanh");
}

#[test]
fn processor_uses_official_runtime_bounds() {
    let cfg = processor_config();
    cfg.validate().unwrap();
    assert_eq!(cfg.runtime_pixel_bounds(), (448 * 448, 2880 * 2880));
    assert_eq!(cfg.rescale_factor.bits, ((1.0f32 / 255.0) as f64).to_bits());
}

#[test]
fn rejects_untied_checkpoint() {
    let mut cfg = config();
    cfg.tie_word_embeddings = false;
    cfg.text_config.tie_word_embeddings = false;
    assert!(cfg.validate().unwrap_err().message().contains("tied"));
}

#[test]
fn unsupported_text_settings_are_rejected() {
    let mut cfg = config();
    cfg.text_config.layer_types[1] = "sliding_attention".to_string();
    assert!(matches!(cfg.validate(), Err(Error::Config { .. })));
    let mut cfg = config();
    cfg.text_config.rope_parameters.mrope_section = vec![11, 11, 9];
    assert!(cfg.validate().is_err());
    let mut cfg = config();
    cfg.text_config.rms_norm_eps = float(0.0);
    assert!(cfg.validate().is_err());
    let mut cfg = config();
    cfg.vision_config.out_hidden_size = 512;
    assert!(cfg.validate().is_err());
    let mut cfg = config();
    cfg.vision_config.num_position_embeddings = 2303;
    assert!(cfg.validate().is_err());
}

#[test]
fn preprocess_uses_official_minimum_area_and_merge_order() {
    let image = RgbBytes { width: 32, height: 32, pixels: vec![255; 32 * 32 * 3] };
    let asked = request_resize(&processor_config(), &vision_config(), 32, 32).unwrap();
    assert_eq!((asked.factor, asked.min_pixels), (32, 448 * 448));
    assert!(asked.resize);
    let plan = plan_patches(&processor_config(), 3, asked.factor, 448, 448).unwrap();
    assert_eq!(plan.grid_thw, (1, 28, 28));
    assert_eq!(plan.num_image_tokens, 196);
    assert_eq!((plan.num_patches, plan.patch_dim), (784, 1536));
    let page = resized(&image, 448, 448, None);
    assert_eq!((page.width, page.height), (448, 448));
    assert!(page.pixels.iter().all(|&value| {
        ((value as f32 / 255.0 - 0.5) / 0.5 - 1.0).abs() < 1e-6
    }));
    assert!(check_patch_values("OvisOCR2", &plan, 784 * 1536).is_ok());
    assert!(check_patch_values("OvisOCR2", &plan, 784 * 1536 - 1).is_err());
}

#[test]
fn preprocess_rejects_processor_vision_mismatch() {
    let mut vision = vision_config();
    vision.patch_size = 14;
    let error = request_resize(&processor_config(), &vision, 448, 448).unwrap_err();
    assert!(error.message().contains("patch_size mismatch"));
}

#[test]
fn preprocess_rejects_empty_image() {
    let error = request_resize(&processor_config(), &vision_config(), 0, 0).unwrap_err();
    assert!(error.message().contains("must be non-empty"));
}

#[test]
fn unaligned_dimensions_are_rejected() {
    assert_eq!(
        plan_patches(&processor_config(), 3, 32, 448, 440).unwrap_err().message(),
        "OvisOCR2 preprocessed dimensions 448x440 must be divisible by 32"
    );
}

#[test]
fn stop_tokens_include_model_and_tokenizer_eos() {
    assert_eq!(build_stop_token_ids(248_044, 248_046), [248_044, 248_046]);
    assert_eq!(build_stop_token_ids(248_044, 248_044), [248_044]);
}

#[test]
fn greedy_argmax_prefers_the_first_tied_token() {
    let logits: Vec<u32> = [1f32, 3., 3., 2.].iter().map(|v| v.to_bits()).collect();
    assert_eq!(argmax_first(&logits), 1);
}

#[test]
fn generation_length_is_checked_without_overflow() {
    validate_generation_length(775, 16_384, 262_144).unwrap();
    assert!(validate_generation_length(775, 262_000, 262_144).is_err());
    assert!(validate_generation_length(1, usize::MAX, usize::MAX).is_err());
}

#[test]
fn official_prompt_has_exact_no_think_framing() {
    let prompt = build_prompt(2);
    assert!(prompt.starts_with(
        "<|im_start|>user\n<|vision_start|><|image_pad|><|image_pad|><|vision_end|>\nExtract"
    ));
    assert!(prompt.ends_with("<|im_end|>\n<|im_start|>assistant\n<think>\n\n</think>\n\n"));
}

#[test]
fn layout_golden_position_ids_match_upstream() {
    let mut ids = vec![1u32; 775];
    ids[4..652].fill(248_056);
    let positions = build_position_ids(&ids, (1, 54, 48), 2, 248_056).unwrap();
    assert_eq!(positions.rope_delta, -621);
    assert_eq!(positions.ids.temporal[4], 4);
    assert_eq!(positions.ids.height[651], 30);
    assert_eq!(positions.ids.width[651], 27);
    assert_eq!(positions.ids.temporal[652], 31);
    assert_eq!(positions.ids.temporal[774], 153);
    // The first generated token follows the last position of the prompt.
    assert_eq!(decode_position(775, 0, -621), 154);
    assert_eq!(decode_position(775, 1, -621), 155);
}

#[test]
fn visual_image_tag_blocks_are_removed() {
    let text = "before\n\n<img src=\"images/bbox_1_2_3_4.jpg\" />\n\nafter";
    assert_eq!(filter_visual_image_tags(text), "before\n\nafter");
}

#[test]
fn filtering_twice_changes_nothing_more() {
    let text = "a\n\n<img src=\"images/bbox_1_2_3_4.jpg\" />\n\nb\n\n\n\nc <img src=\"x\"/>";
    let once = filter_visual_image_tags(text);
    assert_eq!(filter_visual_image_tags(&once), once);
}

#[test]
fn chart_recognition_keeps_visual_image_tags() {
    let text = "<img src=\"images/bbox_1_2_3_4.jpg\" />";
    assert_eq!(postprocess_recognition_text(text, RecognitionTask::Chart), text);
}

#[test]
fn mixed_recognition_tasks_filter_only_non_charts() {
    let text = "<img src=\"images/bbox_1_2_3_4.jpg\" />";
    let tasks = [
        RecognitionTask::Ocr,
        RecognitionTask::Chart,
        RecognitionTask::Table,
        RecognitionTask::Formula,
    ];
    let outputs = tasks.map(|task| postprocess_recognition_text(text, task));

    assert_eq!(outputs, ["", text, "", ""]);
}

#[test]
fn short_text_is_not_repeat_cleaned() {
    let text = "abc".repeat(100);
    assert_eq!(clean_truncated_repeats(&text), text);
}

#[test]
fn long_repetitive_tail_is_cleaned() {
    let prefix = "x".repeat(8_000);
    let text = format!("{prefix}{}", "abcdef".repeat(30));
    let cleaned = clean_truncated_repeats(&text);
    assert!(cleaned.len() < text.len());
    assert!(cleaned.starts_with(&prefix));
}

#[test]
fn cleaned_text_is_a_beginning_of_the_text() {
    let text = format!("{}{}", "page ".repeat(1_700), "0123456789".repeat(12));
    let cleaned = clean_truncated_repeats(&text);
    assert!(text.starts_with(&cleaned));
    assert_eq!(postprocess_text("  a \n", true), "  a \n");
}

#[test]
fn token_ids_are_checked() {
    assert_eq!(check_token_id(Some(5), "<x>", Some(5)).unwrap(), 5);
    assert_eq!(check_token_id(Some(5), "<x>", None).unwrap(), 5);
    assert!(check_token_id(Some(5), "<x>", Some(6)).is_err());
    assert!(check_token_id(None, "<x>", Some(6)).is_err());
    let mut tokenizer = Tokenizer::new(WordLevel::default());
    tokenizer
        .add_special_tokens([AddedToken::from("<|im_end|>", true), AddedToken::from("<y>", true)])
        .unwrap();
    assert_eq!(require_token_id(&tokenizer, "<y>", Some(1)).unwrap(), 1);
    assert!(require_token_id(&tokenizer, "<y>", Some(0)).is_err());
    assert!(check_tokenizer(&tokenizer, &config()).is_err());
}

#[test]
fn requests_are_judged_by_their_length() {
    assert!(matches!(check_request(0, 100), Ok(Admission::Empty)));
    assert!(matches!(check_request(10, 100), Ok(Admission::Generate)));
    assert!(check_request(1000, 100).is_err());
    assert!(validate_counts(2, 3).is_err());
    assert!(validate_counts(2, 2).is_ok());
    assert_eq!(finish_encode(Ok(vec![1, 2]), 10, 100).unwrap(), [1, 2]);
    assert!(finish_encode(Ok(vec![1, 2]), 99, 100).is_err());
    assert!(finish_encode(Ok(Vec::new()), 10, 100).is_err());
    assert!(finish_encode(Err("no".to_string()), 10, 100).is_err());
    assert_eq!(image_span(&vec![1, 5, 5, 2], 5, 2).unwrap(), (1, 3));
    assert!(image_span(&vec![5, 1, 5], 5, 2).is_err());
    assert!(image_span(&vec![5], 5, 2).is_err());
    let options = OvisOcr2ParseOptions::default();
    assert_eq!(options.max_new_tokens, 16_384);
}

#[test]
fn prompt_is_encoded_and_answer_decoded() {
    let mut tokenizer = Tokenizer::new(WordLevel::default());
    tokenizer.add_tokens([AddedToken::from(build_prompt(1), false)]).unwrap();
    tokenizer.add_tokens([AddedToken::from(" answer ", false)]).unwrap();
    assert_eq!(encode_prompt(&tokenizer, 1, 10, 100).unwrap(), [0]);
    assert_eq!(decode_tokens(&tokenizer, &vec![1]).unwrap(), "answer");
    assert_eq!(decode_page(&tokenizer, &vec![1], false).unwrap(), "answer");
    assert!(encode_prompt(&tokenizer, 2, 10, 100).is_err());
}

#[test]
fn qwen35_mrope_axes_are_interleaved() {
    let ids = interleaved_axis_ids(64, &vec![11, 11, 10]);
    let axes = [10f32, 20., 30.];
    // With a base of one every frequency is one, so a lane shows its axis alone.
    let values: Vec<f32> = ids.iter().map(|&axis| axes[axis as usize].cos()).collect();
    assert_eq!(values.len(), 64);
    assert!((values[0] - 10f32.cos()).abs() < 1e-6);
    assert!((values[1] - 20f32.cos()).abs() < 1e-6);
    assert!((values[2] - 30f32.cos()).abs() < 1e-6);
    assert!((values[31] - 20f32.cos()).abs() < 1e-6);
    assert!((0..32).all(|lane| ids[lane] == ids[lane + 32]));
}

#[test]
fn convolution_remembers_the_last_columns() {
    assert_eq!(conv_step(false, 6, 4), ConvStep::Start { from: 2 });
    assert_eq!(conv_step(false, 3, 4), ConvStep::Pad { zeros: 1 });
    assert_eq!(conv_step(true, 1, 4), ConvStep::Shift);
    assert_eq!(conv_step(true, 3, 4), ConvStep::Join { from: 3 });
}

#[test]
fn layers_have_their_shapes() {
    let cfg = config().text_config;
    assert_eq!(token_mixer("full_attention").unwrap(), TokenMixer::Full);
    assert_eq!(token_mixer("linear_attention").unwrap(), TokenMixer::Linear);
    assert!(token_mixer("other").is_err());
    let shape = linear_shape(&cfg).unwrap();
    assert_eq!((shape.key_dim, shape.value_dim, shape.conv_dim, shape.repeat), (2048, 2048, 6144, 1));
    assert_eq!(kv_groups(&cfg).unwrap(), 4);
}

fn interpolated(table: &[f32], base: usize, grid: (usize, usize, usize), merge: usize) -> Vec<f32> {
    validate_position_table(table.len(), base, grid, merge).unwrap();
    let at = |i: usize, n: usize| {
        if n == 1 { 0.0 } else { i as f32 * (base - 1) as f32 / (n - 1) as f32 }
    };
    merge_grouped_spatial_coordinates(grid, merge)
        .unwrap()
        .iter()
        .map(|&(row, col)| {
            let (h, w) = (at(row, grid.1), at(col, grid.2));
            let c = corners(h as usize, w as usize, base);
            let (dh, dw) = (h - h.floor(), w - w.floor());
            table[c.top_left as usize] * (1.0 - dh) * (1.0 - dw)
                + table[c.top_right as usize] * (1.0 - dh) * dw
                + table[c.bottom_left as usize] * dh * (1.0 - dw)
                + table[c.bottom_right as usize] * dh * dw
        })
        .collect()
}

#[test]
fn learned_position_interpolation_matches_bilinear_reference() {
    let values = interpolated(&[0.0, 1.0, 2.0, 3.0], 2, (1, 3, 3), 1);
    let expected = [0.0, 0.5, 1.0, 1.0, 1.5, 2.0, 2.0, 2.5, 3.0];
    assert_eq!(values.len(), expected.len());
    for (actual, expected) in values.iter().zip(expected) {
        assert!((actual - expected).abs() < 1e-6, "{actual} != {expected}");
    }
}

#[test]
fn learned_positions_follow_spatial_merge_group_order() {
    let table: Vec<f32> = (0..16).map(|value| value as f32).collect();
    let values = interpolated(&table, 4, (1, 4, 4), 2);
    assert_eq!(
        values,
        [
            0.0, 1.0, 4.0, 5.0, 2.0, 3.0, 6.0, 7.0, 8.0, 9.0, 12.0, 13.0, 10.0, 11.0, 14.0, 15.0,
        ]
    );
}

#[test]
fn vision_inputs_are_checked() {
    assert!(validate_grid((1, 4, 4), 2, 16).is_ok());
    assert!(validate_grid((1, 4, 4), 2, 15).is_err());
    assert!(validate_grid((1, 3, 4), 2, 12).is_err());
    assert_eq!(merged_len(16, 4).unwrap(), 4);
    assert_eq!(
        merged_len(15, 4).unwrap_err().message(),
        "OvisOCR2 vision merger expected patch count divisible by 4, got 15"
    );
    assert!(validate_position_table(15, 4, (1, 4, 4), 2).is_err());
    assert!(validate_position_table(0, 0, (1, 4, 4), 2).is_err());
}

#[test]
fn recurrence_keeps_its_tokens_apart() {
    let op = validate_inputs((1, 3, 1, 6), (1, 3, 1, 2), (1, 1, 2, 2)).unwrap();
    assert_eq!((op.batch, op.sequence, op.heads, op.head_dim), (1, 3, 1, 2));
    assert_eq!((op.core_len(), op.state_len(), op.packed_len()), (6, 4, 10));
    assert_eq!(op.token_offset(0, 1, 0), 6);
    assert_eq!(op.gate_offset(0, 2, 0), 4);
    assert_eq!(op.output_offset(0, 2, 0), 4);
    assert_eq!(op.state_offset(0, 0), 0);
    assert!(validate_inputs((1, 3, 1, 7), (1, 3, 1, 2), (1, 1, 2, 2)).is_err());
    assert!(validate_inputs((1, 3, 1, 6), (1, 2, 1, 2), (1, 1, 2, 2)).is_err());
    assert!(validate_inputs((1, 3, 1, 6), (1, 3, 1, 2), (1, 1, 2, 3)).is_err());
}

#[test]
fn recurrence_checks_what_it_is_given() {
    let cpu = ("Cpu", "Cpu", "Cpu");
    assert!(validate_kinds(true, cpu, ("BF16", "F32", "F32")).is_ok());
    assert_eq!(
        validate_kinds(true, cpu, ("U8", "F32", "F32")).unwrap_err().message(),
        "gated delta rule supports BF16, F16, or F32 QKV, got U8"
    );
    assert!(validate_kinds(true, cpu, ("F16", "F16", "F32")).is_err());
    assert!(validate_kinds(false, cpu, ("F16", "F32", "F32")).is_err());
    let op = validate_inputs((1, 3, 1, 6), (1, 3, 1, 2), (1, 1, 2, 2)).unwrap();
    assert!(op.validate_layouts(true, (1, 3, 1, 6), (1, 3, 1, 2), (1, 1, 2, 2)).is_ok());
    assert!(op.validate_layouts(false, (1, 3, 1, 6), (1, 3, 1, 2), (1, 1, 2, 2)).is_err());
    assert_eq!(
        op.validate_layouts(true, (1, 3, 1, 6), (1, 3, 1, 1), (1, 1, 2, 2)).unwrap_err().message(),
        "gated delta rule shape mismatch: qkv=[1, 3, 1, 6] (expected [1, 3, 1, 6]), gate_beta=[1, 3, 1, 1] (expected [1, 3, 1, 2]), state=[1, 1, 2, 2] (expected [1, 1, 2, 2])"
    );
    assert!(validate_cuda_head_dim(256).is_ok());
    assert!(validate_cuda_head_dim(257).is_err());
}

#[test]
fn rotation_is_planned_from_the_configuration() {
    let cfg = config().text_config;
    let plan = rotary_plan(&cfg).unwrap();
    assert_eq!(plan.rotary_dim, 64);
    assert_eq!(plan.axis_ids, interleaved_axis_ids(64, &vec![11, 11, 10]));
    let mut bad = config().text_config;
    bad.rope_parameters.mrope_section = vec![11, 11, 9];
    assert_eq!(
        rotary_plan(&bad).unwrap_err().message(),
        "OvisOCR2: mrope_section [11, 11, 9] must sum to rotary_dim/2 (32)"
    );
    bad.head_dim = 3;
    assert!(rotary_plan(&bad).is_err());
    assert!(validate_layer_count(&cfg).is_ok());
    bad.num_hidden_layers = 5;
    assert_eq!(
        validate_layer_count(&bad).unwrap_err().message(),
        "OvisOCR2: layer_types has 4 entries, expected 5"
    );
}

#[test]
fn image_embeddings_find_their_place() {
    let mut ids = vec![1u32; 775];
    ids[4..652].fill(248_056);
    let place = place_image(&ids, (1, 54, 48), 2, 248_056, 648).unwrap();
    assert_eq!((place.start, place.end, place.positions.rope_delta), (4, 652, -621));
    assert!(place_image(&ids, (1, 54, 48), 2, 248_056, 647).is_err());
    assert!(place_image(&ids, (1, 54, 47), 2, 248_056, 648).is_err());
}
