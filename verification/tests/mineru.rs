use oar_ocr_vl::error::Error;
use oar_ocr_vl::mineru::adapter::{capabilities, prompt};
use oar_ocr_vl::mineru::config::{
    MinerUConfig, MinerURopeScaling, MinerUTextConfig, MinerUVisionConfig,
};
use oar_ocr_vl::mineru::parser::MinerUParseOptions;
use oar_ocr_vl::mineru_diffusion::adapter::{cut_answer, generation_length};
use oar_ocr_vl::mineru_diffusion::config::{parse_merge_size, MinerUDiffusionConfig};
use oar_ocr_vl::mineru_diffusion::parser::MinerUDiffusionParseOptions;
use oar_ocr_vl::page::{check_single, settle_block, BlockContent, PageReply, PageRun, Region};
use oar_ocr_vl::recognition::{BackendCapabilities, RecognitionTask};
use oar_ocr_vl::sdar::SdarConfig;

fn sdar(head_dim: Option<usize>, heads: usize) -> SdarConfig {
    SdarConfig {
        vocab_size: 151936,
        hidden_size: 2048,
        intermediate_size: 6144,
        num_hidden_layers: 28,
        num_attention_heads: heads,
        num_key_value_heads: 8,
        max_position_embeddings: 32768,
        head_dim,
        attention_bias: false,
        hidden_act: "silu".to_string(),
        eos_token_id: None,
        pad_token_id: None,
    }
}

#[test]
fn head_dim_prefers_explicit() {
    // hidden_size / heads = 2048 / 16 = 128, but an explicit head_dim wins.
    assert_eq!(sdar(Some(96), 16).head_dim().unwrap(), 96);
}

#[test]
fn head_dim_falls_back_to_ratio() {
    assert_eq!(sdar(None, 16).head_dim().unwrap(), 128);
}

#[test]
fn head_dim_rejects_indivisible_ratio() {
    // No explicit head_dim and hidden_size (2048) not divisible by 17 heads.
    assert!(sdar(None, 17).head_dim().is_err());
}

#[test]
fn merge_size_parses_factor() {
    assert_eq!(parse_merge_size("patch_merger2x", 99).unwrap(), 2);
    assert_eq!(parse_merge_size("pm4x", 99).unwrap(), 4);
    assert_eq!(parse_merge_size("  patch_merger2x  ", 99).unwrap(), 2);
}

#[test]
fn merge_size_falls_back_when_no_factor() {
    // No digits in the type -> use the vision tower's spatial_merge_size.
    assert_eq!(parse_merge_size("patch_merger", 2).unwrap(), 2);
    assert_eq!(parse_merge_size("pm", 3).unwrap(), 3);
}

#[test]
fn merge_size_names_what_it_cannot_read() {
    assert!(parse_merge_size("pm99999999999999999999999x", 2).is_err());
    let cfg = MinerUDiffusionConfig {
        text_config: sdar(None, 16),
        vision_config: MinerUVisionConfig {
            patch_size: 14,
            spatial_merge_size: 3,
            temporal_patch_size: 2,
        },
        image_token_id: 1,
        video_token_id: 2,
        vision_start_token_id: 3,
        vision_end_token_id: 4,
        mask_token_id: 5,
        vision_projector_type: "patch_merger".to_string(),
    };
    assert_eq!(cfg.projector_merge_size().unwrap(), 3);
}

fn config() -> MinerUConfig {
    MinerUConfig {
        vocab_size: 151936,
        hidden_size: 896,
        intermediate_size: 4864,
        num_hidden_layers: 24,
        num_attention_heads: 14,
        num_key_value_heads: 2,
        max_position_embeddings: 16384,
        sliding_window: None,
        max_window_layers: 24,
        use_sliding_window: false,
        hidden_act: "silu".to_string(),
        tie_word_embeddings: true,
        bos_token_id: 1,
        eos_token_id: 2,
        pad_token_id: None,
        vision_start_token_id: 3,
        vision_end_token_id: 4,
        vision_token_id: 5,
        image_token_id: 6,
        video_token_id: 7,
        rope_scaling: MinerURopeScaling::default(),
        vision_config: MinerUVisionConfig {
            patch_size: 14,
            spatial_merge_size: 2,
            temporal_patch_size: 2,
        },
        text_config: MinerUTextConfig::default(),
    }
}

#[test]
fn mineru_heads_share_the_hidden_size() {
    let mut cfg = config();
    assert_eq!(cfg.head_dim().unwrap(), 64);
    assert!(cfg.tie_word_embeddings());
    cfg.num_attention_heads = 15;
    assert!(matches!(cfg.head_dim(), Err(Error::Config { .. })));
    assert!(capabilities(BackendCapabilities::default()).table_output_is_otsl);
    assert_ne!(prompt(RecognitionTask::Table), prompt(RecognitionTask::Formula));
}

#[test]
fn page_options_have_defaults() {
    let options = MinerUParseOptions::default();
    assert!(options.max_tokens > 0 && options.region_batch_size > 0);
    assert_eq!(f64::from_bits(options.max_image_edge_ratio.bits), 50.0);
    let options = MinerUDiffusionParseOptions::new(7);
    assert_eq!((options.generation, options.min_image_edge), (7, 28));
    assert_eq!(f64::from_bits(options.max_image_edge_ratio.bits), 50.0);
}

#[test]
fn answers_fill_whole_blocks() {
    assert_eq!(generation_length(0, 32).unwrap(), None);
    assert_eq!(generation_length(32, 32).unwrap(), Some(32));
    assert_eq!(generation_length(33, 32).unwrap(), Some(64));
    assert_eq!(
        generation_length(usize::MAX, 32).unwrap_err().message(),
        "MinerU-Diffusion max_tokens 18446744073709551615 is too large"
    );
    let mut tokens = vec![1, 2, 3];
    cut_answer(&mut tokens, 2);
    assert_eq!(tokens, [1, 2]);
    cut_answer(&mut tokens, 5);
    assert_eq!(tokens, [1, 2]);
}

fn regions(types: &[&str]) -> Vec<Region> {
    types
        .iter()
        .enumerate()
        .map(|(i, t)| Region { block_index: 10 + i, block_type: t.to_string() })
        .collect()
}

fn answers(texts: &[&str]) -> PageReply {
    PageReply::Answers(texts.iter().map(|t| Ok(t.to_string())).collect())
}

#[test]
fn regions_are_handed_out_in_batches() {
    let mut run = PageRun::new(regions(&["text"; 5]), 2);
    let mut asked = Vec::new();
    while let Some((a, b)) = run.asked() {
        asked.push((a, b));
        run.take(answers(&vec![" x "; b - a]));
    }
    assert_eq!(asked, [(0, 2), (2, 4), (4, 5)]);
    assert_eq!(run.contents.len(), 5);
    assert!(run.diagnostics.is_empty());
    assert!(PageRun::new(Vec::new(), 4).asked().is_none());
    assert_eq!(PageRun::new(regions(&["text"; 2]), 0).asked(), Some((0, 1)));
}

#[test]
fn failed_batches_are_tried_again() {
    let mut run = PageRun::new(regions(&["text", "table", "text", "text"]), 3);
    run.take(answers(&["only", "two"]));
    assert_eq!(run.asked(), Some((0, 1)));
    run.take(answers(&[" a "]));
    let miscounted = check_single(2).unwrap_err();
    assert!(matches!(&miscounted, Error::InvalidInput { .. }));
    run.take(PageReply::Failed(format!("invalid: {}", miscounted.message())));
    run.take(PageReply::Failed("lost".to_string()));
    assert_eq!(run.asked(), Some((3, 4)));
    run.take(PageReply::Failed("out of memory".to_string()));
    assert!(run.asked().is_none());
    assert!(check_single(1).is_ok());
    assert!(matches!(&run.contents[0], Some(BlockContent::Text(t)) if t == "a"));
    assert!(run.contents[1..].iter().all(|c| c.is_none()));
    let notes: Vec<(Option<usize>, &str, &str)> = run
        .diagnostics
        .iter()
        .map(|d| (d.block_index, d.stage.as_str(), d.message.as_str()))
        .collect();
    assert_eq!(
        notes,
        [
            (None, "batch", "MinerU returned 2 results for 3 blocks; retried individually"),
            (Some(11), "recognition", "invalid: MinerU returned 2 results for one block"),
            (Some(12), "recognition", "lost"),
            (Some(13), "recognition", "out of memory"),
        ]
    );
}

#[test]
fn failed_requests_are_tried_again() {
    let mut run = PageRun::new(regions(&["table", "text"]), 2);
    run.take(PageReply::Failed("out of memory".to_string()));
    assert_eq!(run.diagnostics[0].message, "out of memory; retried individually");
    run.take(answers(&[" <fcel> "]));
    run.take(PageReply::Answers(vec![Err("bad ids".to_string())]));
    assert!(run.asked().is_none());
    assert!(matches!(&run.contents[0], Some(BlockContent::Table(t)) if t == " <fcel> "));
    assert!(run.contents[1].is_none());
    assert_eq!(run.diagnostics[1].message, "bad ids");
}

#[test]
fn blocks_are_settled_by_their_type() {
    let mut notes = Vec::new();
    match settle_block(0, "table", Ok(" <fcel> ".to_string()), &mut notes) {
        Some(BlockContent::Table(t)) => assert_eq!(t, " <fcel> "),
        other => panic!("{other:?}"),
    }
    match settle_block(1, "text", Ok(" a ".to_string()), &mut notes) {
        Some(BlockContent::Text(t)) => assert_eq!(t, "a"),
        other => panic!("{other:?}"),
    }
    assert!(settle_block(2, "text", Err("lost".to_string()), &mut notes).is_none());
    assert_eq!(notes.len(), 1);
    assert_eq!(notes[0].block_index, Some(2));
    assert_eq!(notes[0].stage, "recognition");
}
