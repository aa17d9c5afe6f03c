use oar_ocr_vl::decoding::GreedyDecoder;
use oar_ocr_vl::double::{
    floor_of_product, round_ratio, round_reciprocal, Double, SIGNIFICAND_END,
};
use oar_ocr_vl::error::{Error, Message};
use oar_ocr_vl::float::Float;
use oar_ocr_vl::grid::merge_grouped;
use oar_ocr_vl::image::{
    can_resize, crop, resized, validate_channels, validate_patches, Filter, RgbBytes, LONGEST_SIDE,
};
use oar_ocr_vl::numbers::{checked_sum, is_multiple, sum};
use oar_ocr_vl::paddleocr_vl::adapter::{
    capabilities, recognition_batch_key, task, PaddleOcrVlTask,
};
use oar_ocr_vl::paddleocr_vl::processing::{
    patch_bytes, patch_grid, postprocess_table_output, validate_count,
};
use oar_ocr_vl::patches::plan_patches;
use oar_ocr_vl::positions::{prompt_positions, text_positions};
use oar_ocr_vl::recognition::{clean, first_answer, BackendCapabilities, RecognitionTask};
use oar_ocr_vl::scores::argmax_first;
use oar_ocr_vl::speculative::accepted_prefix;
use oar_ocr_vl::text::{has_prefix, replace, same, trim};
use oar_ocr_vl::tokenizer::{can_decode, can_encode, check_token, keeps_ends, require};
use oar_ocr_vl::tokens::{are_contiguous, drop_all, find_positions, first_run, sorted_set};
use tokenizers::decoders::strip::Strip;
use tokenizers::models::wordlevel::WordLevel;
use tokenizers::{AddedToken, Tokenizer, TruncationParams};

fn float(x: f64) -> Float {
    Float { bits: x.to_bits(), text: format!("{x}") }
}

#[test]
fn floats_are_judged_by_their_bits() {
    for x in [0.0, -0.0, 1.0, -1.0, 0.5, 1.5, f64::MIN_POSITIVE, 5e-324, f64::MAX] {
        let f = float(x);
        assert!(f.is_finite());
        assert_eq!(f.is_positive(), x > 0.0);
        assert_eq!(f.in_unit(), x > 0.0 && x <= 1.0);
        assert_eq!(f.at_least_one(), x >= 1.0);
        assert_eq!(f.is_zero(), x == 0.0);
    }
    for x in [f64::NAN, -f64::NAN, f64::INFINITY, f64::NEG_INFINITY] {
        assert!(!float(x).is_finite());
    }
    assert!(!float(f64::NAN).at_least_one());
    assert!(!float(f64::NAN).in_unit());
}

#[test]
fn doubles_are_computed_exactly() {
    for x in [0.5f64, 0.25, 0.3, 0.1, 1.0, 0.75, 0.999] {
        assert_eq!(round_reciprocal(x.to_bits()), (1.0 / x).round() as usize);
        for n in [0usize, 1, 63, 64, 127, 128, 1000] {
            assert_eq!(floor_of_product(n, x.to_bits()), (n as f64 * x) as usize);
        }
    }
    for x in [
        0.0,
        -0.0,
        -0.5,
        1.5,
        3.3,
        1e9,
        9.1e15,
        1.7e19,
        1e300,
        5e-324,
        f64::MAX,
        f64::INFINITY,
        f64::NEG_INFINITY,
        f64::NAN,
        -f64::NAN,
    ] {
        for n in [0usize, 1, 2, 7, 128, 1000, 9_007_199_254_740_993, usize::MAX] {
            assert_eq!(float(x).share_of(n), (n as f64 * x) as usize, "{n} * {x}");
        }
    }
    assert_eq!(float(0.5).reciprocal(), 2);
    assert_eq!(float(0.25).share_of(256), 64);
    assert_eq!(SIGNIFICAND_END, 1u128 << 53);
    for (n, d) in [(1u64 << 60, 3u64), (12_345_678_901_234_567_890, 7), (1 << 63, 9), (5, 2)] {
        let exact = round_ratio(n as u128, d as u128);
        if n / d >= 1 << 53 {
            assert_eq!(exact as f64, (n as f64) / (d as f64));
        } else {
            assert_eq!(exact, 2);
        }
    }
}

#[test]
fn first_of_the_largest_scores_wins() {
    let bits = |v: &[f32]| v.iter().map(|x| x.to_bits()).collect::<Vec<u32>>();
    assert_eq!(argmax_first(&bits(&[-1.0, -0.5, -2.0])), 1);
    assert_eq!(argmax_first(&bits(&[0.0, -0.0, 0.0])), 0);
    assert_eq!(argmax_first(&bits(&[f32::NEG_INFINITY, 5.0, f32::INFINITY])), 2);
    assert_eq!(argmax_first(&bits(&[2.0])), 0);
}

#[test]
fn grid_is_read_in_merged_blocks() {
    assert_eq!(
        merge_grouped(1, 2, 4, 2),
        [(0, 0), (0, 1), (1, 0), (1, 1), (0, 2), (0, 3), (1, 2), (1, 3)]
    );
    assert_eq!(merge_grouped(2, 1, 2, 1), [(0, 0), (0, 1), (0, 0), (0, 1)]);
}

#[test]
fn patch_plans_count_tokens() {
    let plan = plan_patches(14, 2, 588, 56, 84);
    assert_eq!(plan.grid_thw, (1, 4, 6));
    assert_eq!((plan.num_patches, plan.num_image_tokens), (24, 6));
}

#[test]
fn positions_of_an_image_start_together() {
    let p = prompt_positions(8, 2, 6, 2, 2, 2);
    assert_eq!(p.temporal, [0, 1, 2, 2, 2, 2, 4, 5]);
    assert_eq!(p.height, [0, 1, 2, 2, 3, 3, 4, 5]);
    assert_eq!(p.width, [0, 1, 2, 3, 2, 3, 4, 5]);
    let t = text_positions(7, 2);
    assert_eq!((t.temporal, t.height, t.width), (vec![7, 8], vec![7, 8], vec![7, 8]));
}

#[test]
fn greedy_decoding_ends_at_a_stop_or_the_limit() {
    let mut d = GreedyDecoder::new(3, 10);
    assert_eq!(d.take(5, &vec![9]), Some(10));
    assert_eq!(d.take(6, &vec![9]), Some(11));
    assert_eq!(d.take(7, &vec![9]), None);
    assert!(!d.wants_token());
    assert_eq!(d.generated, [5, 6, 7]);
    let mut d = GreedyDecoder::new(3, 0);
    assert_eq!(d.take(9, &vec![9]), None);
    assert!(d.stopped);
    assert!(d.generated.is_empty());
}

#[test]
fn drafts_are_accepted_up_to_the_first_difference() {
    assert_eq!(accepted_prefix(&vec![1, 2, 3], &vec![1, 2, 4, 5]), 2);
    assert_eq!(accepted_prefix(&vec![1, 2], &vec![1, 2, 9]), 2);
    assert_eq!(accepted_prefix(&vec![4], &vec![1, 2]), 0);
}

#[test]
fn token_lists_are_searched_and_sorted() {
    assert_eq!(sorted_set(&vec![3, 1, 3, 2]), [1, 2, 3]);
    assert_eq!(drop_all(&vec![1, 2, 3, 2], &vec![2]), [1, 3]);
    assert_eq!(find_positions(&vec![5, 1, 5], 5), [0, 2]);
    assert!(are_contiguous(&vec![2, 3, 4]));
    assert!(!are_contiguous(&vec![2, 4]));
    assert_eq!(first_run(&vec![1, 5, 5, 2, 5], 5), Some((1, 3)));
    assert_eq!(first_run(&vec![1], 5), None);
}

#[test]
fn sums_are_checked() {
    assert_eq!(checked_sum(&vec![1, 2, 3]), Some(6));
    assert_eq!(checked_sum(&vec![usize::MAX, 1]), None);
    assert_eq!(sum(&vec![4, 5]), 9);
    assert!(is_multiple(0, 0));
    assert!(!is_multiple(4, 0));
    assert!(is_multiple(6, 3));
}

#[test]
fn text_is_trimmed_and_replaced() {
    for s in ["  a b\t\n", "\u{3000}x\u{a0}", "", " ", "\u{200b}x", "\u{85}y\u{2028}"] {
        assert_eq!(trim(s), s.trim());
    }
    assert_eq!(replace("aXbXX", "X", "yy"), "aXbXX".replace('X', "yy"));
    assert!(has_prefix("abc", "ab"));
    assert!(!has_prefix("ab", "abc"));
    assert!(same("ab", "ab"));
    assert!(!same("ab", "ac"));
    assert_eq!(clean(" a "), "a");
}

#[test]
fn messages_are_put_together() {
    let e = Message::new("n=").num(18446744073709551615).text(" ").nums(&vec![1, 20]).config();
    assert_eq!(e.message(), "n=18446744073709551615 [1, 20]");
    assert!(matches!(e, Error::Config { .. }));
    let e = Message::new("").triple((1, 0, 3)).text(" ").quoted("a\"b\n").invalid_input();
    assert_eq!(e.message(), "(1, 0, 3) \"a\\\"b\\n\"");
    assert!(matches!(e, Error::InvalidInput { .. }));
}

#[test]
fn tokens_are_looked_up() {
    assert_eq!(check_token(Some(3), "M", "<x>", None).unwrap(), 3);
    assert!(check_token(None, "M", "<x>", None).unwrap_err().message().contains("\"<x>\""));
    assert!(check_token(Some(3), "M", "<x>", Some(4)).is_err());
    let mut tokenizer = Tokenizer::new(WordLevel::default());
    tokenizer
        .add_special_tokens([AddedToken::from("<a>", true), AddedToken::from("<b>", true)])
        .unwrap();
    assert_eq!(require(&tokenizer, "M", "<b>", Some(1)).unwrap(), 1);
    assert!(require(&tokenizer, "M", "<c>", None).is_err());
}

fn gradient(width: u32, height: u32) -> RgbBytes {
    let n = (width * height * 3) as usize;
    RgbBytes { width, height, pixels: (0..n).map(|i| (i % 256) as u8).collect() }
}

#[test]
fn images_are_resized_and_cropped() {
    let image = gradient(6, 4);
    let part = crop(&image, 1, 1, 2, 2);
    assert_eq!(part.pixels[..3], image.pixels[(6 + 1) * 3..(6 + 2) * 3]);
    assert_eq!(part.pixels[6..9], image.pixels[(12 + 1) * 3..(12 + 2) * 3]);
    let small = resized(&image, 2, 3, Some(Filter::Triangle));
    assert_eq!((small.width, small.height, small.pixels.len()), (3, 2, 18));
    let nearest = resized(&image, 8, 12, Some(Filter::Nearest));
    assert_eq!(nearest.pixels[..3], image.pixels[..3]);
    assert_eq!(nearest.pixels[3..6], image.pixels[..3]);
    assert!(can_resize(&image, 3, 2));
    assert!(can_resize(&image, LONGEST_SIDE, LONGEST_SIDE));
    assert!(!can_resize(&image, LONGEST_SIDE + 1, 1));
    assert!(!can_resize(&image, 1, LONGEST_SIDE + 1));
    let long = RgbBytes { width: LONGEST_SIDE + 1, height: 0, pixels: Vec::new() };
    assert!(!can_resize(&long, 1, 1));
}

#[test]
fn image_settings_are_checked() {
    let three = || vec![float(0.5), float(0.5), float(0.5)];
    assert!(validate_channels("M", &three(), &three()).is_ok());
    let error = validate_channels("M", &vec![float(0.5)], &three()).unwrap_err();
    assert!(matches!(error, Error::Config { .. }));
    assert!(validate_channels("M", &three(), &vec![float(0.5)]).is_err());
    assert!(validate_patches("M", 14, 2, 1).is_ok());
    let error = validate_patches("M", 0, 2, 1).unwrap_err();
    assert!(matches!(error, Error::Config { .. }));
}

#[test]
fn patches_hold_channels_one_after_the_other() {
    let image = gradient(4, 2);
    assert_eq!(patch_grid(2, 4, 2).unwrap(), (1, 1, 2));
    assert_eq!(
        patch_grid(2, 5, 2).unwrap_err().message(),
        "PaddleOCR-VL preprocess produced non-divisible dims: 2x5 not divisible by patch_size=2"
    );
    assert_eq!(patch_bytes(&image, 2, 0), [0, 3, 12, 15, 1, 4, 13, 16, 2, 5, 14, 17]);
    assert_eq!(patch_bytes(&image, 2, 1), [6, 9, 18, 21, 7, 10, 19, 22, 8, 11, 20, 23]);
    let mut all = patch_bytes(&image, 2, 0);
    all.extend(patch_bytes(&image, 2, 1));
    all.sort_unstable();
    assert_eq!(all, image.pixels);
}

#[test]
fn table_answers_become_html() {
    assert_eq!(postprocess_table_output(" plain ", false, "<html>"), "plain");
    assert_eq!(postprocess_table_output("<fcel>a", true, "<html>"), "<html>");
    assert_eq!(postprocess_table_output("<table></table>", false, "<html>"), "<html>");
    assert!(validate_count(0).is_err());
    assert!(validate_count(1).is_ok());
}

#[test]
fn paddle_tasks_are_mapped() {
    assert_eq!(task(RecognitionTask::Chart), PaddleOcrVlTask::Chart);
    assert_eq!(task(RecognitionTask::Ocr), PaddleOcrVlTask::Ocr);
    assert_eq!(recognition_batch_key(Some(7)), 7);
    let plain = BackendCapabilities::default();
    assert!(capabilities(plain).preprocess_formula_margin);
}

#[test]
fn tokenizers_are_asked_what_they_can_do() {
    let mut tokenizer = Tokenizer::new(WordLevel::default());
    assert!(can_encode(&tokenizer));
    assert!(can_decode(&tokenizer));
    tokenizer.with_decoder(Some(Strip::new(' ', 1, 0)));
    assert!(can_decode(&tokenizer));
    tokenizer.with_decoder(Some(Strip::new(' ', 0, 2)));
    assert!(!can_decode(&tokenizer));
    assert!(keeps_ends("null"));
    assert!(!keeps_ends("{\"start\":0,\"stop\":10}"));
    let cut = TruncationParams { max_length: 4, stride: 4, ..TruncationParams::default() };
    tokenizer.with_truncation(Some(cut)).unwrap();
    assert!(!can_encode(&tokenizer));
    let cut = TruncationParams { max_length: 4, stride: 3, ..TruncationParams::default() };
    tokenizer.with_truncation(Some(cut)).unwrap();
    assert!(can_encode(&tokenizer));
}

#[test]
fn one_image_has_one_answer() {
    assert_eq!(first_answer(vec![Ok("a".to_string()), Ok("b".to_string())], "none").unwrap(), "a");
    assert_eq!(first_answer(Vec::new(), "M: no result").unwrap_err().message(), "M: no result");
    assert!(first_answer(vec![Err(Error::config("bad"))], "none").is_err());
}

#[test]
fn test_preprocess_outputs_expected_shapes() {
    let image = RgbBytes { width: 64, height: 64, pixels: vec![127; 3 * 64 * 64] };
    let image = resized(&image, 336, 336, None);
    assert_eq!((image.width, image.height), (336, 336));
    let (t, h, w) = patch_grid(image.height, image.width, 14).unwrap();
    assert_eq!(t, 1);
    assert!(h > 0);
    assert!(w > 0);
    assert_eq!((h, w), (24, 24));
    for i in [0, 25, h * w - 1] {
        let bytes = patch_bytes(&image, 14, i);
        assert_eq!(bytes.len(), 3 * 14 * 14);
        assert!(bytes.iter().all(|&byte| byte == 127));
    }
}

#[test]
fn doubles_are_computed_like_the_machine_does() {
    let value = |d: &Double| d.m as f64 * 2f64.powi(d.e as i32);
    let mut seed = 2_463_534_242u64;
    let mut random = || {
        seed ^= seed << 13;
        seed ^= seed >> 7;
        seed ^= seed << 17;
        seed >> (seed % 61)
    };
    for _ in 0..3000 {
        let (a, b) = (random(), random());
        let (x, y) = (Double::whole(a as u128), Double::whole(b as u128));
        assert_eq!(value(&x), a as f64);
        assert_eq!(value(&x.times(&y)), a as f64 * b as f64);
        assert_eq!(value(&x.distance_to(&y)), (a as f64 - b as f64).abs());
        assert_eq!(x.less(&y), (a as f64) < (b as f64));
        let far = x.times(&Double { m: 1 << 52, e: 90 });
        assert_eq!(value(&far.distance_to(&y)), (value(&far) - b as f64).abs());
        let small = (a >> 12, (b >> 12) + 1);
        let quotient = Double::rounded(small.0 as u128, small.1 as u128, 116);
        assert_eq!(value(&quotient), small.0 as f64 / small.1 as f64 * 2f64.powi(116));
    }
}
