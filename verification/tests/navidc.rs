use oar_ocr_vl::decoder_graph::GraphSlots;
use oar_ocr_vl::navidc_ocr::config::{
    NaviDcConfig, NaviDcRopeScaling, NaviDcTextConfig, NaviDcVisionConfig,
};
use oar_ocr_vl::navidc_ocr::task::{
    capabilities, postprocess, postprocess_formula, prompt, NaviDcTask,
};
use oar_ocr_vl::navidc_ocr::text::{
    attention_shape, next_kv_len, prepare_ar_cuda_graph, validate_graph_batch,
};
use oar_ocr_vl::recognition::{BackendCapabilities, RecognitionTask};

fn config() -> NaviDcConfig {
    NaviDcConfig {
        vocab_size: 151936,
        hidden_size: 1024,
        intermediate_size: 3072,
        num_hidden_layers: 28,
        num_attention_heads: 16,
        num_key_value_heads: 8,
        max_position_embeddings: 128000,
        head_dim: Some(128),
        hidden_act: "silu".to_string(),
        tie_word_embeddings: false,
        bos_token_id: 151643,
        eos_token_id: 151645,
        pad_token_id: None,
        vision_start_token_id: 151652,
        vision_end_token_id: 151653,
        vision_token_id: 151654,
        image_token_id: 151655,
        video_token_id: 151656,
        rope_scaling: NaviDcRopeScaling { mrope_section: vec![16, 24, 24] },
        vision_config: NaviDcVisionConfig {
            depth: 32,
            fullatt_block_indexes: vec![7, 15, 23, 31],
            hidden_size: 1280,
            num_heads: 16,
            in_chans: Some(3),
            in_channels: Some(3),
            patch_size: 14,
            spatial_merge_size: 2,
            temporal_patch_size: 2,
            window_size: 112,
        },
        text_config: NaviDcTextConfig {
            head_dim: Some(128),
            tie_word_embeddings: true,
            pad_token_id: Some(151643),
            eos_token_id: Some(151645),
            layer_types: vec!["full_attention".to_string()],
        },
    }
}

#[test]
fn task_prompts_match_official_quickstart() {
    assert_eq!(NaviDcTask::Text.prompt(), "Please output the text content from the image.");
    assert_eq!(
        NaviDcTask::Table.prompt(),
        "This is the image of a table. Please output the table in OTSL format."
    );
    assert_eq!(
        NaviDcTask::Formula.prompt(),
        "Please write out the expression of the formula in the image using LaTeX format."
    );
    assert_eq!(
        NaviDcTask::Code.prompt(),
        "The image contains a code snippet, please output the parsing result."
    );
    assert_eq!(NaviDcTask::Layout.prompt(), "Analyze the image layout.");
    assert_eq!(
        NaviDcTask::LayoutDistorted.prompt(),
        "\nMulti-point Layout Segmentation Analysis."
    );
    assert_eq!(
        NaviDcTask::ScientificFigure.prompt(),
        "This is a scientific figure. Please extract the table implied by this figure."
    );
}

#[test]
fn layout_tasks_resize_to_1036() {
    assert_eq!(NaviDcTask::Layout.resize_square(), Some(1036));
    assert_eq!(NaviDcTask::LayoutDistorted.resize_square(), Some(1036));
    assert_eq!(NaviDcTask::Text.resize_square(), None);
}

#[test]
fn otsl_tasks_are_table_like() {
    assert!(NaviDcTask::Table.outputs_otsl());
    assert!(NaviDcTask::ScientificFigure.outputs_otsl());
    assert!(!NaviDcTask::Text.outputs_otsl());
}

#[test]
fn formula_postprocess_unwraps_brackets_and_wraps_dollars() {
    assert_eq!(postprocess_formula("\\[E = mc^2\\]"), "$$E = mc^2$$");
    assert_eq!(postprocess_formula("  \\[E = mc^2\\]  "), "$$E = mc^2$$");
    assert_eq!(postprocess_formula("E = mc^2"), "$$E = mc^2$$");
}

#[test]
fn formula_postprocess_keeps_dollar_delimited_content() {
    assert_eq!(postprocess_formula("$E = mc^2$"), "$E = mc^2$");
    assert_eq!(postprocess_formula("$$E = mc^2$$"), "$$E = mc^2$$");
}

#[test]
fn formula_postprocess_strips_only_one_bracket_side() {
    // Both sides are stripped on their own.
    assert_eq!(postprocess_formula("\\[E = mc^2"), "$$E = mc^2$$");
    assert_eq!(postprocess_formula("E = mc^2\\]"), "$$E = mc^2$$");
}

#[test]
fn finished_formula_is_settled() {
    let once = postprocess_formula(" \\[x\\] ");
    assert_eq!(postprocess_formula(&once), once);
    assert_eq!(NaviDcTask::Formula.postprocess("x"), "$$x$$");
    assert_eq!(NaviDcTask::Text.postprocess(" x "), "x");
    assert_eq!(postprocess(RecognitionTask::Formula, "x"), "$$x$$");
    assert_eq!(prompt(RecognitionTask::Table), NaviDcTask::Table.prompt());
    assert!(capabilities(BackendCapabilities::default()).table_output_is_otsl);
}

#[test]
fn parses_navidc_checkpoint_layout() {
    let cfg = config();
    assert_eq!(cfg.head_dim().unwrap(), 128);
    assert_eq!(cfg.vocab_size, 151936);
    assert_eq!(cfg.effective_eos_token_id(), 151645);
    assert!(cfg.tie_word_embeddings());
    assert_eq!(cfg.effective_pad_token_id(), Some(151643));
    assert_eq!(*cfg.mrope_section().unwrap(), [16, 24, 24]);
    assert_eq!(cfg.vision_config.in_channels(), 3);
    assert_eq!(cfg.vision_config.head_dim().unwrap(), 80);
    assert_eq!(cfg.vision_config.fullatt_block_indexes, vec![7, 15, 23, 31]);
    cfg.validate().unwrap();
}

#[test]
fn head_dim_falls_back_to_hidden_over_heads() {
    let mut cfg = config();
    cfg.head_dim = None;
    cfg.text_config.head_dim = None;
    assert_eq!(cfg.head_dim().unwrap(), 1024 / 16);
}

#[test]
fn head_dim_fallback_requires_divisibility() {
    let mut cfg = config();
    cfg.head_dim = None;
    cfg.text_config.head_dim = None;
    cfg.num_attention_heads = 15;
    assert!(cfg.head_dim().is_err());
}

#[test]
fn nested_tie_word_embeddings_alone_is_honoured() {
    let mut cfg = config();
    assert!(!cfg.tie_word_embeddings);
    assert!(cfg.tie_word_embeddings());
    cfg.text_config.tie_word_embeddings = false;
    assert!(!cfg.tie_word_embeddings());
}

#[test]
fn mrope_section_must_match_head_dim() {
    let mut cfg = config();
    cfg.rope_scaling.mrope_section = vec![16, 24, 23];
    let err = cfg.validate().unwrap_err();
    assert!(err.message().contains("mrope_section"));
}

#[test]
fn sliding_attention_layers_are_rejected() {
    let mut cfg = config();
    cfg.text_config.layer_types = vec!["sliding_attention".to_string()];
    let err = cfg.validate().unwrap_err();
    assert!(err.message().contains("sliding_attention"));
}

#[test]
fn window_size_must_align_with_window_tokens() {
    let mut cfg = config();
    cfg.vision_config.window_size = 100;
    let err = cfg.validate().unwrap_err();
    assert!(err.message().contains("window_size"));
}

#[test]
fn fullatt_index_beyond_depth_is_rejected() {
    let mut cfg = config();
    cfg.vision_config.fullatt_block_indexes = vec![32];
    let err = cfg.validate().unwrap_err();
    assert!(err.message().contains("fullatt_block_indexes"));
}

#[test]
fn channel_settings_have_two_spellings() {
    let mut vision = config().vision_config;
    vision.in_channels = None;
    vision.in_chans = Some(4);
    assert_eq!(vision.in_channels(), 4);
}

#[test]
fn attention_follows_the_configuration() {
    let shape = attention_shape(&config()).unwrap();
    assert_eq!((shape.head_dim, shape.query_dim, shape.key_dim), (128, 2048, 1024));
    assert_eq!((shape.groups, shape.cache_len), (2, 128_000));
    let mut cfg = config();
    cfg.num_key_value_heads = 5;
    assert!(attention_shape(&cfg).is_err());
    assert!(validate_graph_batch(1).is_ok());
    assert!(validate_graph_batch(2).is_err());
    assert_eq!(next_kv_len(7), 8);
    let mut slots = GraphSlots::empty();
    assert_eq!(prepare_ar_cuda_graph(&mut slots, false, true, 1500, 256), Some(2048));
    assert_eq!(prepare_ar_cuda_graph(&mut slots, false, true, 1500, 256), None);
}
