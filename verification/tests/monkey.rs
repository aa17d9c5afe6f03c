use oar_ocr_vl::error::Error;
use oar_ocr_vl::float::Float;
use oar_ocr_vl::monkeyocrv2::config::{
    MonkeyOcrV2Config, MonkeyOcrV2ImageProcessorConfig, MonkeyOcrV2VisionConfig,
};
use oar_ocr_vl::monkeyocrv2::model::{
    build_prompt, capabilities, check_tokenizer, decode_tokens, encode_prompt, finish_decode,
    finish_encode, image_span, map_task, stop_token_ids, validate_counts,
    validate_generation_length, EndTokens, MonkeyOcrV2ParseOptions, MonkeyOcrV2Task,
};
use oar_ocr_vl::monkeyocrv2::processing::{check_image, min_pixels, plan_patches};
use oar_ocr_vl::monkeyocrv2::vision::{merged_len, rope_lanes, validate_grid};
use oar_ocr_vl::recognition::{BackendCapabilities, RecognitionTask};
use oar_ocr_vl::scores::argmax_first;
use oar_ocr_vl::sdar::SdarConfig;
use tokenizers::models::wordlevel::WordLevel;
use tokenizers::{AddedToken, Tokenizer};

fn float(x: f64) -> Float {
    Float { bits: x.to_bits(), text: format!("{x}") }
}

fn processor() -> MonkeyOcrV2ImageProcessorConfig {
    MonkeyOcrV2ImageProcessorConfig {
        min_pixels: 28 * 28,
        max_pixels: 1024 * 1024,
        patch_size: 14,
        temporal_patch_size: 1,
        merge_size: 2,
        image_mean: vec![float(0.48145466), float(0.4578275), float(0.40821073)],
        image_std: vec![float(0.26862954), float(0.261_302_6), float(0.275_777_1)],
        do_resize: true,
        do_rescale: true,
        do_normalize: true,
        rescale_factor: float(1.0 / 255.0),
        resample: Some(3),
    }
}

fn config(embed_dim: usize, intermediate_size: usize, heads: usize) -> MonkeyOcrV2Config {
    MonkeyOcrV2Config {
        text_config: SdarConfig {
            vocab_size: 151936,
            hidden_size: 1024,
            intermediate_size: 3072,
            num_hidden_layers: 28,
            num_attention_heads: 16,
            num_key_value_heads: 8,
            max_position_embeddings: 40960,
            head_dim: Some(128),
            attention_bias: false,
            hidden_act: "silu".to_string(),
            eos_token_id: None,
            pad_token_id: None,
        },
        vision_config: MonkeyOcrV2VisionConfig {
            embed_dim,
            hidden_size: 1024,
            intermediate_size,
            num_hidden_layers: 12,
            num_attention_heads: heads,
            num_channels: 3,
            patch_size: 14,
            spatial_merge_size: 2,
            temporal_patch_size: 1,
            rms_norm_eps: float(0.00001),
            use_bias: false,
            post_norm: true,
        },
        image_token_id: 151655,
        video_token_id: 151656,
        model_type: "monkeyocrv2".to_string(),
    }
}

#[test]
fn parses_shipped_s_config_shape() {
    let config = config(384, 1536, 6);
    config.validate().unwrap();
    assert_eq!(config.text_config.head_dim().unwrap(), 128);
    assert_eq!(config.vision_config.head_dim().unwrap(), 64);
}

#[test]
fn parses_shipped_b_config_shape() {
    let config = config(768, 3072, 12);
    config.validate().unwrap();
    assert_eq!(config.text_config.head_dim().unwrap(), 128);
    assert_eq!(config.vision_config.embed_dim, 768);
    assert_eq!(config.vision_config.num_attention_heads, 12);
    assert_eq!(config.vision_config.head_dim().unwrap(), 64);
}

#[test]
fn unsupported_checkpoints_are_named() {
    let mut cfg = config(384, 1536, 6);
    cfg.model_type = "qwen".to_string();
    assert_eq!(
        cfg.validate().unwrap_err().message(),
        "MonkeyOCRv2 expected model_type 'monkeyocrv2', got 'qwen'"
    );
    let mut cfg = config(384, 1536, 6);
    cfg.text_config.hidden_act = "gelu".to_string();
    assert_eq!(
        cfg.validate().unwrap_err().message(),
        "MonkeyOCRv2 supports Qwen3 hidden_act 'silu', got 'gelu'"
    );
    let mut cfg = config(384, 1536, 6);
    cfg.vision_config.hidden_size = 512;
    assert_eq!(
        cfg.validate().unwrap_err().message(),
        "MonkeyOCRv2 vision merger output 512 != text hidden size 1024"
    );
    let mut cfg = config(384, 1536, 6);
    cfg.vision_config.rms_norm_eps = float(-1.0);
    assert_eq!(
        cfg.validate().unwrap_err().message(),
        "MonkeyOCRv2 vision rms_norm_eps must be positive, got -1"
    );
    assert!(config(385, 1536, 6).validate().is_err());
}

#[test]
fn processor_has_to_fit_the_vision_tower() {
    let cfg = processor();
    cfg.validate().unwrap();
    cfg.validate_vision(&config(384, 1536, 6).vision_config).unwrap();
    let mut other = config(384, 1536, 6).vision_config;
    other.spatial_merge_size = 4;
    assert!(cfg.validate_vision(&other).is_err());
    let mut bad = processor();
    bad.min_pixels = bad.max_pixels + 1;
    assert_eq!(
        bad.validate().unwrap_err().message(),
        "MonkeyOCRv2 invalid pixel bounds: 1048577..1048576"
    );
    let mut bad = processor();
    bad.image_std[1] = float(0.0);
    assert!(bad.validate().is_err());
}

#[test]
fn prompt_matches_official_template() {
    assert_eq!(
        build_prompt("Question", 2),
        "<|im_start|>system\nYou are a helpful assistant.<|im_end|>\n<|im_start|>user\n<|vision_start|><|image_pad|><|image_pad|><|vision_end|>Question<|im_end|>\n<|im_start|>assistant\n"
    );
}

#[test]
fn tasks_match_reference_prompts() {
    assert_eq!(
        MonkeyOcrV2Task::Table.prompt(),
        "Please extract the table from the image and represent it in OTSL format."
    );
    assert!(MonkeyOcrV2Task::EndToEnd.prompt().contains("reading order"));
}

#[test]
fn greedy_argmax_prefers_first_tie() {
    let logits: Vec<u32> = [1f32, 3., 3., 2.].iter().map(|v| v.to_bits()).collect();
    assert_eq!(argmax_first(&logits), 1);
}

#[test]
fn recognition_tasks_are_mapped() {
    assert_eq!(map_task(RecognitionTask::Table), MonkeyOcrV2Task::Table);
    assert_eq!(map_task(RecognitionTask::Formula), MonkeyOcrV2Task::Formula);
    assert_eq!(map_task(RecognitionTask::Ocr), MonkeyOcrV2Task::Text);
    assert!(capabilities(BackendCapabilities::default()).table_output_is_otsl);
    assert_eq!(MonkeyOcrV2Task::Text.min_pixels(), None);
    assert_eq!(MonkeyOcrV2Task::Layout.min_pixels(), Some(1_003_520));
    assert_eq!(MonkeyOcrV2ParseOptions::default().max_new_tokens, 10_000);
}

#[test]
fn creates_merge_grouped_patches() {
    assert_eq!(check_image(&processor(), 84, 56).unwrap(), 28);
    let plan = plan_patches(&processor(), 56, 84).unwrap();
    assert_eq!(plan.grid_thw, (1, 4, 6));
    assert_eq!(plan.num_image_tokens, 6);
    assert_eq!((plan.num_patches, plan.patch_dim), (24, 588));
}

#[test]
fn upscales_small_crop_when_resize_is_enabled() {
    // A crop of 84x20 is read at 84x28.
    assert_eq!(check_image(&processor(), 84, 20).unwrap(), 28);
    let plan = plan_patches(&processor(), 28, 84).unwrap();
    assert_eq!(plan.grid_thw, (1, 2, 6));
    assert_eq!(plan.num_image_tokens, 3);
    assert_eq!((plan.num_patches, plan.patch_dim), (12, 588));
}

#[test]
fn rejects_too_small_image_when_resize_is_disabled() {
    let mut cfg = processor();
    cfg.do_resize = false;

    let error = check_image(&cfg, 27, 28).unwrap_err();
    assert!(matches!(
        error,
        Error::InvalidInput { message }
            if message.contains("at least 28x28, got 27x28")
    ));
}

#[test]
fn rejects_unaligned_image_when_resize_is_disabled() {
    let mut cfg = processor();
    cfg.do_resize = false;

    let error = check_image(&cfg, 85, 56).unwrap_err();
    assert!(matches!(
        error,
        Error::InvalidInput { message }
            if message.contains("divisible by 28") && message.contains("85x56")
    ));
}

#[test]
fn layouts_are_read_at_a_larger_size() {
    assert_eq!(min_pixels(&processor(), None), 784);
    assert_eq!(min_pixels(&processor(), Some(1_003_520)), 1_003_520);
    assert!(check_image(&processor(), 0, 5).is_err());
}

fn cosines(h: usize, w: usize, merge: usize, head_dim: usize) -> Vec<f32> {
    rope_lanes(h, w, merge, head_dim)
        .iter()
        .map(|lane| {
            let inverse = 1.0 / 10_000f32.powf(lane.index as f32 / (head_dim / 2) as f32);
            (lane.coordinate as f32 * inverse).cos()
        })
        .collect()
}

#[test]
fn rope_follows_merge_grouped_patch_order() {
    let cos = cosines(4, 6, 2, 64);
    assert_eq!(cos.len(), 24 * 64);
    assert!(cos[..64].iter().all(|value| (*value - 1.0).abs() < 1e-6));
    let lanes = rope_lanes(4, 6, 2, 64);
    // The third patch lies below the first one.
    assert_eq!((lanes[2 * 64].coordinate, lanes[2 * 64 + 1].coordinate), (1, 0));
}

#[test]
fn rope_interleaves_axes_before_rotate_half_duplication() {
    let cos = cosines(2, 2, 1, 8);
    let bottom_right = &cos[3 * 8..4 * 8];
    let expected = [
        1.0_f32.cos(),
        1.0_f32.cos(),
        0.01_f32.cos(),
        0.01_f32.cos(),
        1.0_f32.cos(),
        1.0_f32.cos(),
        0.01_f32.cos(),
        0.01_f32.cos(),
    ];
    assert!(bottom_right
        .iter()
        .zip(expected)
        .all(|(actual, expected)| (*actual - expected).abs() < 1e-6));
}

#[test]
fn vision_grids_are_checked() {
    assert!(validate_grid((1, 4, 6), 2, 24).is_ok());
    assert_eq!(
        validate_grid((1, 4, 6), 2, 23).unwrap_err().message(),
        "MonkeyOCRv2 pixel patch count 23 does not match grid (1, 4, 6) (24)"
    );
    assert!(validate_grid((1, 3, 6), 2, 18).is_err());
    assert_eq!(merged_len(24, 4).unwrap(), 6);
    assert!(merged_len(23, 4).is_err());
}

#[test]
fn stop_tokens_hold_each_id_once() {
    let ends = EndTokens { im_end: 9, end_of_text: 3 };
    let mut ids = stop_token_ids(ends, Some(9), Some(1));
    ids.sort_unstable();
    assert_eq!(ids, [1, 3, 9]);
}

#[test]
fn tokenizer_needs_the_image_token() {
    let tokenizer = Tokenizer::new(WordLevel::default());
    assert!(check_tokenizer(&tokenizer, &config(384, 1536, 6)).is_err());
}

#[test]
fn request_limits_are_reported() {
    assert!(validate_counts(2, 3).is_err());
    assert!(validate_generation_length(10, 20, 30).is_ok());
    assert_eq!(
        validate_generation_length(10, 21, 30).unwrap_err().message(),
        "MonkeyOCRv2 prompt (10) plus max_new_tokens (21) exceeds context limit 30"
    );
    assert_eq!(
        validate_generation_length(1, usize::MAX, 30).unwrap_err().message(),
        "MonkeyOCRv2 requested sequence length overflows usize"
    );
    assert!(finish_encode(Ok(Vec::new()), 1, 30).is_err());
    assert!(finish_encode(Err("x".to_string()), 1, 30).is_err());
    assert_eq!(finish_decode(Ok(" a ".to_string())).unwrap(), "a");
    assert_eq!(image_span(&vec![7, 8, 8], 8, 2).unwrap(), (1, 3));
    assert!(image_span(&vec![8, 7, 8], 8, 2).is_err());
    assert!(image_span(&vec![8, 7], 8, 2).is_err());
}

#[test]
fn question_is_encoded_and_answer_decoded() {
    let mut tokenizer = Tokenizer::new(WordLevel::default());
    tokenizer.add_tokens([AddedToken::from(build_prompt("Q", 1), false)]).unwrap();
    tokenizer.add_tokens([AddedToken::from(" answer ", false)]).unwrap();
    assert_eq!(encode_prompt(&tokenizer, "Q", 1, 5, 100).unwrap(), [0]);
    assert!(encode_prompt(&tokenizer, "Q", 1, 100, 100).is_err());
    assert_eq!(decode_tokens(&tokenizer, &vec![1]).unwrap(), "answer");
}
