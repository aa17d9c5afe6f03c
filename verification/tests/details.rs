use oar_ocr_vl::decoder_graph::{decoder_cache_capacity, GraphSlots};
use oar_ocr_vl::glmocr;
use oar_ocr_vl::hpd_parsing::config as hpd_config;
use oar_ocr_vl::hpd_parsing::scheduler::{Branch, BranchKind, ForkEvent};
use oar_ocr_vl::hunyuanocr;
use oar_ocr_vl::hunyuanocr::dflash::{ContextKv, DFlashConfig, DFlashTargetConfig, StorageChange};
use oar_ocr_vl::hunyuanocr::penalty::keep_in_vocab;
use oar_ocr_vl::image::{resize_filter, Filter};
use oar_ocr_vl::monkeyocrv2::config::default_num_channels;
use oar_ocr_vl::ovisocr2;
use oar_ocr_vl::ovisocr2::config::default_true;
use oar_ocr_vl::{float::Float, mineru, navidc_ocr};
use tokenizers::models::wordlevel::WordLevel;
use tokenizers::{AddedToken, Tokenizer};

fn two_words() -> Tokenizer {
    let mut tokenizer = Tokenizer::new(WordLevel::default());
    tokenizer
        .add_tokens([AddedToken::from(" word ", false), AddedToken::from("next", false)])
        .unwrap();
    tokenizer
}

fn float(x: f64) -> Float {
    Float { bits: x.to_bits(), text: format!("{x}") }
}

#[test]
fn decoder_cache_is_a_bucket_below_the_limit() {
    assert_eq!(decoder_cache_capacity(1000, 24, 4096), Some(1024));
    assert_eq!(decoder_cache_capacity(1000, 25, 4096), Some(2048));
    assert_eq!(decoder_cache_capacity(4000, 5000, 4096), Some(4096));
    assert_eq!(decoder_cache_capacity(4096, 1, 4096), None);
    assert_eq!(decoder_cache_capacity(10, 0, 4096), None);
}

#[test]
fn invalidated_slots_hold_no_graph() {
    let mut slots = GraphSlots { decode: Some(1024), verification: Some((1024, 5)) };
    slots.invalidate();
    assert_eq!(slots.decode, None);
    assert_eq!(slots.verification, None);
}

#[test]
fn configuration_defaults() {
    assert_eq!(hpd_config::default_channels(), 3);
    assert_eq!(hpd_config::default_act(), "gelu");
    assert_eq!(hpd_config::default_norm(), "layer_norm");
    assert_eq!(hpd_config::default_min_patches(), 1);
    assert_eq!(hpd_config::default_max_patches(), 24);
    assert_eq!(default_num_channels(), 3);
    assert_eq!(mineru::config::default_text_hidden_act(), "silu");
    assert_eq!(navidc_ocr::config::default_text_hidden_act(), "silu");
    assert!(default_true());
}

#[test]
fn resizing_is_bicubic_unless_a_filter_is_named() {
    assert_eq!(resize_filter(None), Filter::CatmullRom);
    assert_eq!(resize_filter(Some(Filter::Nearest)), Filter::Nearest);
}

#[test]
fn raw_decoding_keeps_the_words() {
    let tokenizer = two_words();
    let ids = vec![0];
    assert_eq!(glmocr::model::decode_tokens_raw(&tokenizer, &ids).unwrap(), "word");
    assert_eq!(hunyuanocr::model::decode_tokens_raw(&tokenizer, &ids).unwrap(), " word ");
    assert_eq!(ovisocr2::model::decode_tokens_raw(&tokenizer, &ids).unwrap(), "word");
}

#[test]
fn ids_outside_the_vocabulary_are_dropped() {
    assert_eq!(keep_in_vocab(&vec![7, 3, 9, 3], 8), vec![7, 3, 3]);
    assert_eq!(keep_in_vocab(&vec![8], 8), Vec::<u32>::new());
}

#[test]
fn draft_context_storage_grows_by_pages() {
    let mut context = ContextKv::default();
    assert_eq!(context.ensure_capacity(8, 128, true, 10), StorageChange::Allocate);
    assert_eq!(context.ensure_capacity(8, 128, true, 16_384), StorageChange::Keep);
    assert_eq!(context.ensure_capacity(8, 128, true, 16_385), StorageChange::Grow(16_384));
    context.len = 20;
    context.reset_graph_storage();
    assert_eq!(context.storage, None);
    assert_eq!(context.len, 0);
    assert_eq!(context.capacity, 16_384);
}

#[test]
fn each_draft_layer_owns_a_key_and_a_value_block() {
    let config = DFlashConfig {
        block_size: 16,
        hidden_size: 1024,
        intermediate_size: 3584,
        num_attention_heads: 16,
        num_hidden_layers: 5,
        num_key_value_heads: 8,
        head_dim: 128,
        vocab_size: 120818,
        rms_norm_eps: float(0.00001),
        rope_theta: float(10000.0),
        dflash_config: DFlashTargetConfig { mask_token_id: 1, target_layer_ids: vec![1] },
    };
    assert_eq!(config.context_kv_offsets(0), (0, 1024));
    assert_eq!(config.context_kv_offsets(3), (6144, 7168));
}

#[test]
fn branch_emits_the_verified_prefix_and_forks_where_it_says() {
    let mut events: Vec<ForkEvent> = Vec::new();
    let mut branch = Branch::start(BranchKind::Parent, 100, 5, 10, true);
    let accepted = branch.advance(&vec![9, 6, 7], &vec![9, 6, 8, 1], 2, 9, &vec![2], &mut events);
    assert_eq!(accepted, 2);
    assert_eq!(branch.tokens, vec![5, 9, 6]);
    assert_eq!(branch.pending_token, 8);
    assert_eq!(branch.seq_len, 103);
    assert!(!branch.finished);
    assert_eq!(events, vec![ForkEvent { branch_index: 2, prefix_len: 101 }]);

    branch.emit(2, 103, 2, 9, &vec![2], &mut events);
    assert!(branch.finished);
    branch.emit(4, 104, 2, 9, &vec![2], &mut events);
    assert_eq!(branch.tokens, vec![5, 9, 6, 2]);
}
