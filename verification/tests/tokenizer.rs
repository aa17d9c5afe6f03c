use oar_ocr_vl::glmocr::model::{decode_tokens, encode_prompt};
use oar_ocr_vl::tokenizer::{can_decode, can_encode, takes_one_text};
use tokenizers::{AddedToken, Tokenizer};

/// A tokenizer with one part that is not the plain one.
fn with_part(key: &str, value: &str) -> Tokenizer {
    let plain = [
        ("truncation", "null"),
        ("padding", "null"),
        ("added_tokens", "[]"),
        ("normalizer", "null"),
        ("pre_tokenizer", "null"),
        ("post_processor", "null"),
        ("decoder", "null"),
        ("model", "{\"type\":\"WordLevel\",\"vocab\":{\"a\":0},\"unk_token\":\"a\"}"),
    ];
    let parts: Vec<String> = plain
        .iter()
        .map(|(k, v)| format!("\"{k}\":{}", if *k == key { value } else { v }))
        .collect();
    let json = format!("{{\"version\":\"1.0\",{}}}", parts.join(","));
    Tokenizer::from_bytes(json.as_bytes()).unwrap()
}

#[test]
fn tokenizers_with_steps_that_cannot_take_every_text_are_refused() {
    let usable = |key: &str, value: &str| can_encode(&with_part(key, value));
    let bytes = "{\"type\":\"ByteLevel\",\"add_prefix_space\":false,\"trim_offsets\":false,\
                 \"use_regex\":false}";
    let split = |regex: &str| {
        format!(
            "{{\"type\":\"Split\",\"pattern\":{{\"Regex\":\"{regex}\"}},\
             \"behavior\":\"Isolated\",\"invert\":false}}"
        )
    };
    // The steps of common checkpoints.
    let steps = format!(
        "{{\"type\":\"Sequence\",\"pretokenizers\":[{},{bytes}]}}",
        split("(?i:'s|'t)|\\\\s+(?!\\\\S)|\\\\s+")
    );
    assert!(usable("pre_tokenizer", &steps));
    assert!(usable("pre_tokenizer", "{\"type\":\"FixedLength\",\"length\":10}"));
    assert!(usable("normalizer", "{\"type\":\"NFC\"}"));
    assert!(usable("post_processor", bytes));
    assert!(!usable("pre_tokenizer", "{\"type\":\"FixedLength\",\"length\":0}"));
    assert!(!usable("pre_tokenizer", &split("a\\\\Kb")));

    let replace = |pattern: &str| {
        format!("{{\"type\":\"Replace\",\"pattern\":{pattern},\"content\":\"b\"}}")
    };
    assert!(usable("normalizer", &replace("{\"String\":\" \"}")));
    assert!(!usable("normalizer", &replace("{\"String\":\"\"}")));
    assert!(!usable("normalizer", &replace("{\"Regex\":\"x*\"}")));
    assert!(!usable("normalizer", "{\"type\":\"Prepend\",\"prepend\":\"\"}"));

    let token = |left: bool, right: bool| {
        format!(
            "[{{\"id\":1,\"content\":\"<s>\",\"single_word\":false,\"lstrip\":{left},\
             \"rstrip\":{right},\"normalized\":false,\"special\":true}}]"
        )
    };
    assert!(usable("added_tokens", &token(false, false)));
    assert!(!usable("added_tokens", &token(true, false)));
    assert!(!usable("added_tokens", &token(false, true)));

    let padding = |strategy: &str, multiple: &str| {
        format!(
            "{{\"strategy\":{strategy},\"direction\":\"Right\",\"pad_to_multiple_of\":{multiple},\
             \"pad_id\":0,\"pad_type_id\":0,\"pad_token\":\"a\"}}"
        )
    };
    assert!(usable("padding", &padding("{\"Fixed\":64}", "null")));
    assert!(usable("padding", &padding("\"BatchLongest\"", "8")));
    assert!(!usable("padding", &padding("{\"Fixed\":18446744073709551615}", "null")));
    assert!(!usable("padding", &padding("\"BatchLongest\"", "18446744073709551615")));
    assert!(!usable("model", "{\"type\":\"Unigram\",\"unk_id\":0,\"vocab\":[[\"a\",0.0]]}"));
}

#[test]
fn post_processors_are_given_one_text() {
    let usable = |value: &str| can_encode(&with_part("post_processor", value));
    let piece = |id: &str| format!("{{\"Sequence\":{{\"id\":\"{id}\",\"type_id\":0}}}}");
    let template = |single: &str| {
        format!(
            "{{\"type\":\"TemplateProcessing\",\"single\":[{single}],\"pair\":[{},{}],\
             \"special_tokens\":{{}}}}",
            piece("A"),
            piece("B")
        )
    };
    let both = |steps: &[String]| {
        format!("{{\"type\":\"Sequence\",\"processors\":[{}]}}", steps.join(","))
    };
    let one = template(&piece("A"));
    assert!(usable(&one));
    assert!(usable(&both(&[one.clone()])));
    assert!(!usable(&template(&format!("{},{}", piece("A"), piece("B")))));
    assert!(!usable(&both(&[one.clone(), one])));
    assert!(takes_one_text("null"));
    assert!(!takes_one_text(&template(&piece("B"))));
}

#[test]
fn decoders_that_cannot_take_every_list_are_refused() {
    let usable = |value: &str| can_decode(&with_part("decoder", value));
    assert!(usable("{\"type\":\"ByteFallback\"}"));
    assert!(usable("{\"type\":\"Fuse\"}"));
    assert!(!usable("{\"type\":\"BPEDecoder\",\"suffix\":\"</w>\"}"));
    let replace = |regex: &str| {
        format!(
            "{{\"type\":\"Replace\",\"pattern\":{{\"Regex\":\"{regex}\"}},\"content\":\"\"}}"
        )
    };
    assert!(usable(&replace("x+")));
    assert!(!usable(&replace("x\\\\Ky")));
}

/// A tokenizer with a normalizer, a pre-tokenizer and an added token.
fn assembled(normalizer: &str, pre_tokenizer: &str, processor: &str, normalized: bool) -> Tokenizer {
    let json = format!(
        "{{\"version\":\"1.0\",\"truncation\":null,\"padding\":null,\
         \"added_tokens\":[{{\"id\":1,\"content\":\"<s>\",\"single_word\":false,\
         \"lstrip\":false,\"rstrip\":false,\"normalized\":{normalized},\"special\":true}},\
         {{\"id\":2,\"content\":\" \",\"single_word\":false,\"lstrip\":false,\
         \"rstrip\":false,\"normalized\":{normalized},\"special\":false}}],\
         \"normalizer\":{normalizer},\"pre_tokenizer\":{pre_tokenizer},\
         \"post_processor\":{processor},\"decoder\":null,\
         \"model\":{{\"type\":\"WordLevel\",\"vocab\":{{\"a\":0}},\"unk_token\":\"a\"}}}}"
    );
    Tokenizer::from_bytes(json.as_bytes()).unwrap()
}

const TEXTS: [&str; 22] = [
    "",
    " ",
    "   \t\n",
    "a",
    "\u{e9}",
    "e\u{301}",
    "\u{301}\u{301}",
    " \u{301}a",
    "\u{65e5}\u{672c} \u{8a9e}",
    "\u{1f44d}\u{1f3fd}\u{200d}\u{1f469}",
    "\u{0}\u{7f}\u{ad}",
    "\u{fb01}\u{fdfa}",
    "\u{130}\u{df}\u{1e9e}",
    "  both  ends  ",
    "<s>",
    "a<s>b <s> c",
    "it's 12,345.67 x_y-z",
    "\u{1100}\u{1161}\u{ac00}",
    "\u{ff21}\u{ff10}",
    "\u{feff}\u{200b}x",
    "\u{3a5}\u{308}\u{301}",
    "\u{1d400}\u{10ffff}",
];

#[test]
fn accepted_tokenizers_take_every_text() {
    let replace = |from: &str, to: &str| {
        format!(
            "{{\"type\":\"Replace\",\"pattern\":{{\"String\":\"{from}\"}},\"content\":\"{to}\"}}"
        )
    };
    let named = |kind: &str| format!("{{\"type\":\"{kind}\"}}");
    let bert = "{\"type\":\"BertNormalizer\",\"clean_text\":true,\"handle_chinese_chars\":true,\
                \"strip_accents\":true,\"lowercase\":true}";
    let strip = "{\"type\":\"Strip\",\"strip_left\":true,\"strip_right\":true}";
    let prepend = "{\"type\":\"Prepend\",\"prepend\":\"_\"}";
    let mut normalizers = vec![
        "null".to_string(),
        replace(" ", "_"),
        replace("a", ""),
        replace("\u{301}", "xyz"),
        bert.to_string(),
        strip.to_string(),
        prepend.to_string(),
    ];
    for kind in ["NFC", "NFD", "NFKC", "NFKD", "Lowercase", "StripAccents", "Nmt", "ByteLevel"] {
        normalizers.push(named(kind));
    }
    normalizers.push(format!(
        "{{\"type\":\"Sequence\",\"normalizers\":[{prepend},{},{strip},{},{}]}}",
        named("NFKD"),
        named("StripAccents"),
        replace("_", "")
    ));

    let split = |behavior: &str, invert: bool, regex: &str| {
        format!(
            "{{\"type\":\"Split\",\"pattern\":{{\"Regex\":\"{regex}\"}},\
             \"behavior\":\"{behavior}\",\"invert\":{invert}}}"
        )
    };
    let metaspace = |scheme: &str| {
        format!(
            "{{\"type\":\"Metaspace\",\"replacement\":\"_\",\"prepend_scheme\":\"{scheme}\",\
             \"split\":true}}"
        )
    };
    let bytes = |prefix: bool, regex: bool| {
        format!(
            "{{\"type\":\"ByteLevel\",\"add_prefix_space\":{prefix},\"trim_offsets\":true,\
             \"use_regex\":{regex}}}"
        )
    };
    let mut cutters = vec![
        "null".to_string(),
        bytes(true, true),
        bytes(false, false),
        metaspace("always"),
        metaspace("first"),
        metaspace("never"),
        "{\"type\":\"FixedLength\",\"length\":2}".to_string(),
        "{\"type\":\"Digits\",\"individual_digits\":true}".to_string(),
        "{\"type\":\"Punctuation\",\"behavior\":\"Contiguous\"}".to_string(),
        "{\"type\":\"CharDelimiterSplit\",\"delimiter\":\"a\"}".to_string(),
    ];
    for kind in ["BertPreTokenizer", "Whitespace", "WhitespaceSplit", "UnicodeScripts"] {
        cutters.push(named(kind));
    }
    for behavior in ["Removed", "Isolated", "MergedWithPrevious", "MergedWithNext", "Contiguous"] {
        cutters.push(split(behavior, false, "(?=a)|\\\\s*"));
        cutters.push(split(behavior, true, "\\\\w+(?!\\\\w)"));
    }
    cutters.push(format!(
        "{{\"type\":\"Sequence\",\"pretokenizers\":[{},{}]}}",
        split("Isolated", false, "\\\\p{N}"),
        bytes(true, false)
    ));

    let processors = [
        "null".to_string(),
        bytes(true, true),
        "{\"type\":\"RobertaProcessing\",\"sep\":[\"<s>\",1],\"cls\":[\"<s>\",1],\
         \"trim_offsets\":true,\"add_prefix_space\":true}"
            .to_string(),
        "{\"type\":\"BertProcessing\",\"sep\":[\"<s>\",1],\"cls\":[\"<s>\",1]}".to_string(),
    ];
    let mut accepted = 0;
    for normalizer in &normalizers {
        for cutter in &cutters {
            for processor in &processors {
                for normalized in [false, true] {
                    let tokenizer = assembled(normalizer, cutter, processor, normalized);
                    if !can_encode(&tokenizer) {
                        continue;
                    }
                    accepted += 1;
                    for text in TEXTS {
                        let _ = encode_prompt(&tokenizer, text);
                    }
                }
            }
        }
    }
    assert!(accepted > 1000);
    let gone = assembled(strip, "null", "null", true);
    assert!(!can_encode(&gone));
}

#[test]
fn accepted_tokenizers_decode_every_list() {
    let decoders = [
        "null",
        "{\"type\":\"ByteFallback\"}",
        "{\"type\":\"Fuse\"}",
        "{\"type\":\"WordPiece\",\"prefix\":\"##\",\"cleanup\":true}",
        "{\"type\":\"CTC\",\"pad_token\":\"a\",\"word_delimiter_token\":\"|\",\"cleanup\":true}",
        "{\"type\":\"Metaspace\",\"replacement\":\"_\",\"prepend_scheme\":\"always\",\"split\":true}",
        "{\"type\":\"ByteLevel\",\"add_prefix_space\":true,\"trim_offsets\":true,\"use_regex\":true}",
        "{\"type\":\"Strip\",\"content\":\" \",\"start\":3,\"stop\":0}",
        "{\"type\":\"Replace\",\"pattern\":{\"Regex\":\"a*\"},\"content\":\"\"}",
        "{\"type\":\"Sequence\",\"decoders\":[{\"type\":\"Fuse\"},{\"type\":\"ByteFallback\"}]}",
    ];
    for decoder in decoders {
        let mut tokenizer = with_part("decoder", decoder);
        tokenizer.add_tokens([AddedToken::from("\u{65e5} b", false)]).unwrap();
        assert!(can_decode(&tokenizer), "{decoder}");
        for ids in [vec![], vec![0], vec![1], vec![0, 1, 0], vec![99], vec![1, 99, 1]] {
            assert!(decode_tokens(&tokenizer, &ids).is_ok());
        }
    }
}
