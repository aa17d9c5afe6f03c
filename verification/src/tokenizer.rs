//! The tokenizer of a checkpoint.
use crate::error::{self, Error, ErrorView, Message};
use crate::text;
use tokenizers::{ModelWrapper, PaddingStrategy, Tokenizer};
use vstd::prelude::*;

verus! {

#[verifier::external_type_specification]
#[verifier::external_body]
pub struct ExTokenizer(tokenizers::Tokenizer);

/// The tokens that a tokenizer knows, with their ids.
pub uninterp spec fn vocabulary(tokenizer: Tokenizer) -> Map<Seq<char>, u32>;

/// The most tokens to which a tokenizer cuts a text, and how many of them the next
/// piece repeats; `None` where it cuts nothing.
pub uninterp spec fn truncation(tokenizer: Tokenizer) -> Option<(usize, usize)>;

/// The fixed length to which a tokenizer fills up its ids, and the number of which
/// their length becomes a multiple, where it has them; `None` where it fills up
/// nothing.
pub uninterp spec fn padding(tokenizer: Tokenizer) -> Option<(Option<usize>, Option<usize>)>;

/// Whether a tokenizer's model is a unigram model.
pub uninterp spec fn unigram(tokenizer: Tokenizer) -> bool;

/// A tokenizer's added tokens, written as JSON.
pub uninterp spec fn added_tokens_json(tokenizer: Tokenizer) -> Option<Seq<char>>;

/// A tokenizer's normalizer, written as JSON.
pub uninterp spec fn normalizer_json(tokenizer: Tokenizer) -> Option<Seq<char>>;

/// A tokenizer's pre-tokenizer, written as JSON.
pub uninterp spec fn pre_tokenizer_json(tokenizer: Tokenizer) -> Option<Seq<char>>;

/// A tokenizer's post-processor, written as JSON.
pub uninterp spec fn post_processor_json(tokenizer: Tokenizer) -> Option<Seq<char>>;

/// A tokenizer's decoder, written as JSON.
pub uninterp spec fn decoder_json(tokenizer: Tokenizer) -> Option<Seq<char>>;

/// The ids that a tokenizer may give for a text, or the messages of its errors.
pub uninterp spec fn encodings(tokenizer: Tokenizer) -> Map<
    Seq<char>,
    Set<Result<Seq<u32>, Seq<char>>>,
>;

/// The text that a tokenizer gives for a list of ids, with or without its special
/// tokens, or the message of its decoder's error.
pub uninterp spec fn decodings(tokenizer: Tokenizer) -> Map<
    (Seq<u32>, bool),
    Result<Seq<char>, Seq<char>>,
>;

/// `Tokenizer::token_to_id` looks a token up in the added tokens and then in the
/// model's vocabulary; both are plain tables.
#[verifier::external_body]
pub(crate) fn token_to_id(tokenizer: &Tokenizer, token: &str) -> (id: Option<u32>)
    ensures
        id == if vocabulary(*tokenizer).contains_key(token@) {
            Some(vocabulary(*tokenizer)[token@])
        } else {
            None
        },
{
    tokenizer.token_to_id(token)
}

/// `Tokenizer::get_truncation`: the `max_length` and the `stride` that the tokenizer
/// holds.
#[verifier::external_body]
pub(crate) fn get_truncation(tokenizer: &Tokenizer) -> (r: Option<(usize, usize)>)
    ensures
        r == truncation(*tokenizer),
{
    tokenizer.get_truncation().map(|t| (t.max_length, t.stride))
}

/// `Tokenizer::get_padding`: the size of a fixed strategy and `pad_to_multiple_of`.
#[verifier::external_body]
pub(crate) fn get_padding(tokenizer: &Tokenizer) -> (r: Option<(Option<usize>, Option<usize>)>)
    ensures
        r == padding(*tokenizer),
{
    tokenizer.get_padding().map(|p| match p.strategy {
        PaddingStrategy::Fixed(size) => (Some(size), p.pad_to_multiple_of),
        PaddingStrategy::BatchLongest => (None, p.pad_to_multiple_of),
    })
}

/// `Tokenizer::get_model`: whether it is the `Unigram` variant.
#[verifier::external_body]
pub(crate) fn is_unigram(tokenizer: &Tokenizer) -> (r: bool)
    ensures
        r == unigram(*tokenizer),
{
    matches!(tokenizer.get_model(), ModelWrapper::Unigram(_))
}

/// `serde_json::to_string` of the tokenizer's added tokens: in the order of their
/// ids, each an object with its settings. The form depends on the tokens alone.
#[verifier::external_body]
pub(crate) fn write_added_tokens(tokenizer: &Tokenizer) -> (r: Option<String>)
    ensures
        match r {
            Some(s) => added_tokens_json(*tokenizer) == Some(s@),
            None => added_tokens_json(*tokenizer) is None,
        },
{
    serde_json::to_string(&tokenizer.get_added_vocabulary()).ok()
}

/// `serde_json::to_string` of the tokenizer's normalizer: the derived form, in which
/// each step is an object. The form depends on the normalizer alone.
#[verifier::external_body]
pub(crate) fn write_normalizer(tokenizer: &Tokenizer) -> (r: Option<String>)
    ensures
        match r {
            Some(s) => normalizer_json(*tokenizer) == Some(s@),
            None => normalizer_json(*tokenizer) is None,
        },
{
    serde_json::to_string(&tokenizer.get_normalizer()).ok()
}

/// `serde_json::to_string` of the tokenizer's pre-tokenizer: the derived form, in
/// which each step is an object. The form depends on the pre-tokenizer alone.
#[verifier::external_body]
pub(crate) fn write_pre_tokenizer(tokenizer: &Tokenizer) -> (r: Option<String>)
    ensures
        match r {
            Some(s) => pre_tokenizer_json(*tokenizer) == Some(s@),
            None => pre_tokenizer_json(*tokenizer) is None,
        },
{
    serde_json::to_string(&tokenizer.get_pre_tokenizer()).ok()
}

/// `serde_json::to_string` of the tokenizer's post-processor: the derived form, in
/// which each step is an object and a template has its list for one text at its key
/// `single`, followed by that for two texts at its key `pair`. The form depends on the
/// post-processor alone.
#[verifier::external_body]
pub(crate) fn write_post_processor(tokenizer: &Tokenizer) -> (r: Option<String>)
    ensures
        match r {
            Some(s) => post_processor_json(*tokenizer) == Some(s@),
            None => post_processor_json(*tokenizer) is None,
        },
{
    serde_json::to_string(&tokenizer.get_post_processor()).ok()
}

/// `serde_json::to_string` of the tokenizer's decoder: the derived form, in which
/// each step that strips characters is an object with the number of characters at
/// its key `stop`. The form depends on the decoder alone.
#[verifier::external_body]
pub(crate) fn write_decoder(tokenizer: &Tokenizer) -> (r: Option<String>)
    ensures
        match r {
            Some(s) => decoder_json(*tokenizer) == Some(s@),
            None => decoder_json(*tokenizer) is None,
        },
{
    serde_json::to_string(&tokenizer.get_decoder()).ok()
}

/// The greatest length to which ids are filled up, and the greatest number of which
/// their length is made a multiple.
pub const MOST_PADDING: usize = 0x100_0000;

/// Cutting works: what the next piece repeats is shorter than a piece.
pub open spec fn truncates(setting: Option<(usize, usize)>) -> bool {
    match setting {
        Some((max_length, stride)) => max_length == 0 || stride < max_length,
        None => true,
    }
}

/// Filling up stays within what memory can address.
pub open spec fn pads(setting: Option<(Option<usize>, Option<usize>)>) -> bool {
    match setting {
        Some((size, multiple)) => {
            &&& size matches Some(size) ==> size <= 0x100_0000
            &&& multiple matches Some(multiple) ==> multiple <= 0x100_0000
        },
        None => true,
    }
}

/// `pat` does not occur in `json`.
pub open spec fn lacks(json: Seq<char>, pat: Seq<char>) -> bool {
    text::find(json, pat) is None
}

/// No added token takes the white space around it along. Two that claim the same white
/// space can cross, and crossed pieces cannot be cut out.
pub open spec fn added_tokens_stay_apart(json: Seq<char>) -> bool {
    lacks(json, "\"lstrip\":true"@) && lacks(json, "\"rstrip\":true"@)
}

/// No step of a normalizer can leave nothing of a text that is not empty.
pub open spec fn leaves_something(json: Seq<char>) -> bool {
    &&& lacks(json, "\"type\":\"Strip"@)
    &&& lacks(json, "\"type\":\"BertNormalizer\""@)
    &&& lacks(json, "\"type\":\"Nmt\""@)
    &&& lacks(json, "\"content\":\"\""@)
}

/// No added token is normalized away: an empty one would be found inside characters.
pub open spec fn added_tokens_last(added: Seq<char>, normalizer: Seq<char>) -> bool {
    lacks(added, "\"normalized\":true"@) || leaves_something(normalizer)
}

/// Every step of a normalizer can tell where its characters come from. A step that may
/// put characters where none were cannot: a replaced expression may be empty, and so
/// may a replaced or prepended text. The table of a precompiled step is not checked.
pub open spec fn keeps_alignment(json: Seq<char>) -> bool {
    &&& lacks(json, "\"Regex\":"@)
    &&& lacks(json, "\"String\":\"\""@)
    &&& lacks(json, "\"prepend\":\"\""@)
    &&& lacks(json, "\"precompiled_charsmap\":"@)
}

/// Every step of a pre-tokenizer cuts a text into pieces that follow each other: no
/// piece has a fixed length of zero, and no expression moves the start of its match.
pub open spec fn cuts_in_order(json: Seq<char>) -> bool {
    lacks(json, "\"length\":0"@) && lacks(json, "\\\\K"@)
}

/// From place `i` on, the list of a template for one text asks for a second one;
/// `inside` tells whether that list has begun.
pub open spec fn asks_for_second(json: Seq<char>, i: int, inside: bool) -> bool
    decreases json.len() - i,
{
    if i < 0 || i >= json.len() {
        false
    } else if text::starts_with(json.skip(i), "\"single\":["@) {
        asks_for_second(json, i + 1, true)
    } else if text::starts_with(json.skip(i), "\"pair\":["@) {
        asks_for_second(json, i + 1, false)
    } else if inside && text::starts_with(json.skip(i), "\"Sequence\":{\"id\":\"B\""@) {
        true
    } else {
        asks_for_second(json, i + 1, inside)
    }
}

/// `pat` occurs at most once in `json`.
pub open spec fn at_most_once(json: Seq<char>, pat: Seq<char>) -> bool {
    match text::find(json, pat) {
        Some(i) => lacks(json.skip(i as int + 1), pat),
        None => true,
    }
}

/// A post-processor can be given one text: it holds no more than one template, and
/// that does not ask for a second text.
pub open spec fn processes_one(json: Seq<char>) -> bool {
    &&& at_most_once(json, "\"type\":\"TemplateProcessing\""@)
    &&& !asks_for_second(json, 0, false)
}

/// A tokenizer can be asked for the ids of every text.
pub open spec fn encodes(tokenizer: Tokenizer) -> bool {
    &&& truncates(truncation(tokenizer))
    &&& pads(padding(tokenizer))
    &&& !unigram(tokenizer)
    &&& added_tokens_json(tokenizer) matches Some(json) && added_tokens_stay_apart(json)
    &&& normalizer_json(tokenizer) matches Some(json) && keeps_alignment(json)
    &&& added_tokens_last(added_tokens_json(tokenizer)->0, normalizer_json(tokenizer)->0)
    &&& pre_tokenizer_json(tokenizer) matches Some(json) && cuts_in_order(json)
    &&& post_processor_json(tokenizer) matches Some(json) && processes_one(json)
}

/// The key under which a decoder's step tells how much it strips off the end of a
/// token.
pub open spec fn stop_key() -> Seq<char> {
    "\"stop\":"@
}

/// No step of a decoder strips the ends of tokens. One that does fails on tokens
/// that are shorter than what it strips.
pub open spec fn strips_no_end(json: Seq<char>) -> bool {
    forall|i: int|
        0 <= i <= json.len() && #[trigger] text::starts_with(json.skip(i), stop_key())
            ==> text::starts_with(json.skip(i + stop_key().len()), "0"@)
}

/// Every step of a decoder takes every list of tokens: none strips the ends of tokens,
/// none looks for the last of no tokens, and no expression moves the start of its
/// match.
pub open spec fn takes_all_tokens(json: Seq<char>) -> bool {
    &&& strips_no_end(json)
    &&& lacks(json, "\"type\":\"BPEDecoder\""@)
    &&& lacks(json, "\\\\K"@)
}

/// A tokenizer can decode every list of ids.
pub open spec fn decodes(tokenizer: Tokenizer) -> bool {
    decoder_json(tokenizer) matches Some(json) && takes_all_tokens(json)
}

/// Whether cutting works.
pub fn can_truncate(setting: Option<(usize, usize)>) -> (r: bool)
    ensures
        r == truncates(setting),
{
    match setting {
        Some((max_length, stride)) => max_length == 0 || stride < max_length,
        None => true,
    }
}

/// Whether filling up stays within what memory can address.
pub fn can_pad(setting: Option<(Option<usize>, Option<usize>)>) -> (r: bool)
    ensures
        r == pads(setting),
{
    match setting {
        Some((size, multiple)) => {
            let size_fits: bool = match size {
                Some(size) => size <= MOST_PADDING,
                None => true,
            };
            let multiple_fits: bool = match multiple {
                Some(multiple) => multiple <= MOST_PADDING,
                None => true,
            };
            size_fits && multiple_fits
        },
        None => true,
    }
}

/// Decides [`lacks`].
fn is_without(json: &str, pat: &str) -> (r: bool)
    ensures
        r == lacks(json@, pat@),
{
    let chars = text::char_vec(json);
    let wanted = text::char_vec(pat);
    let n: usize = chars.len();
    proof {
        assert(chars@.subrange(0, n as int) =~= json@);
    }
    text::find_from(&chars, 0, n, &wanted).is_none()
}

/// Whether added tokens take no white space along.
pub fn tokens_stay_apart(json: &str) -> (r: bool)
    ensures
        r == added_tokens_stay_apart(json@),
{
    is_without(json, "\"lstrip\":true") && is_without(json, "\"rstrip\":true")
}

/// Whether no added token is normalized away.
pub fn tokens_last(added: &str, normalizer: &str) -> (r: bool)
    ensures
        r == added_tokens_last(added@, normalizer@),
{
    is_without(added, "\"normalized\":true") || (is_without(normalizer, "\"type\":\"Strip")
        && is_without(normalizer, "\"type\":\"BertNormalizer\"") && is_without(
        normalizer,
        "\"type\":\"Nmt\"",
    ) && is_without(normalizer, "\"content\":\"\""))
}

/// Whether every step of a normalizer can tell where its characters come from.
pub fn normalizer_aligns(json: &str) -> (r: bool)
    ensures
        r == keeps_alignment(json@),
{
    is_without(json, "\"Regex\":") && is_without(json, "\"String\":\"\"") && is_without(
        json,
        "\"prepend\":\"\"",
    ) && is_without(json, "\"precompiled_charsmap\":")
}

/// Whether every step of a pre-tokenizer cuts a text into pieces that follow each
/// other.
pub fn pieces_follow(json: &str) -> (r: bool)
    ensures
        r == cuts_in_order(json@),
{
    is_without(json, "\"length\":0") && is_without(json, "\\\\K")
}

/// Whether a post-processor can be given one text.
pub fn takes_one_text(json: &str) -> (r: bool)
    ensures
        r == processes_one(json@),
{
    let chars = text::char_vec(json);
    let n: usize = chars.len();
    let template = text::char_vec("\"type\":\"TemplateProcessing\"");
    proof {
        assert(chars@.subrange(0, n as int) =~= json@);
        reveal_strlit("\"type\":\"TemplateProcessing\"");
    }
    if let Some(first) = text::find_from(&chars, 0, n, &template) {
        proof {
            assert(chars@.subrange(first as int + 1, n as int) =~= json@.skip(first as int + 1));
        }
        if text::find_from(&chars, first + 1, n, &template).is_some() {
            return false;
        }
    }
    let single = text::char_vec("\"single\":[");
    let pair = text::char_vec("\"pair\":[");
    let second = text::char_vec("\"Sequence\":{\"id\":\"B\"");
    let mut inside: bool = false;
    let mut i: usize = 0;
    while i < n
        invariant
            i <= n == chars.len(),
            chars@ == json@,
            single@ == "\"single\":["@,
            pair@ == "\"pair\":["@,
            second@ == "\"Sequence\":{\"id\":\"B\""@,
            asks_for_second(json@, 0, false) == asks_for_second(json@, i as int, inside),
        decreases n - i,
    {
        proof {
            assert(chars@.subrange(i as int, n as int) =~= json@.skip(i as int));
        }
        if text::matches_at(&chars, i, n, &single) {
            inside = true;
        } else if text::matches_at(&chars, i, n, &pair) {
            inside = false;
        } else if inside && text::matches_at(&chars, i, n, &second) {
            return false;
        }
        i = i + 1;
    }
    true
}

/// Whether a tokenizer can be asked for the ids of a text.
pub fn can_encode(tokenizer: &Tokenizer) -> (r: bool)
    ensures
        r == encodes(*tokenizer),
{
    if !can_truncate(get_truncation(tokenizer)) || !can_pad(get_padding(tokenizer)) || is_unigram(
        tokenizer,
    ) {
        return false;
    }
    let matched: bool = match (write_added_tokens(tokenizer), write_normalizer(tokenizer)) {
        (Some(added), Some(normalizer)) => {
            tokens_stay_apart(added.as_str()) && normalizer_aligns(normalizer.as_str())
                && tokens_last(added.as_str(), normalizer.as_str())
        },
        _ => false,
    };
    let pre_tokenizer: bool = match write_pre_tokenizer(tokenizer) {
        Some(json) => pieces_follow(json.as_str()),
        None => false,
    };
    let post_processor: bool = match write_post_processor(tokenizer) {
        Some(json) => takes_one_text(json.as_str()),
        None => false,
    };
    matched && pre_tokenizer && post_processor
}

/// Whether a tokenizer can be asked for the text of ids.
pub fn can_decode(tokenizer: &Tokenizer) -> (r: bool)
    ensures
        r == decodes(*tokenizer),
{
    match write_decoder(tokenizer) {
        Some(json) => decoder_takes_all(json.as_str()),
        None => false,
    }
}

/// Whether every step of a decoder takes every list of tokens.
pub fn decoder_takes_all(json: &str) -> (r: bool)
    ensures
        r == takes_all_tokens(json@),
{
    keeps_ends(json) && is_without(json, "\"type\":\"BPEDecoder\"") && is_without(json, "\\\\K")
}

/// Whether no step of a decoder strips the ends of tokens.
pub fn keeps_ends(json: &str) -> (r: bool)
    ensures
        r == strips_no_end(json@),
{
    let chars = text::char_vec(json);
    let key = text::char_vec("\"stop\":");
    let zero = text::char_vec("0");
    let n: usize = chars.len();
    let mut i: usize = 0;
    while i < n
        invariant
            i <= n == chars.len(),
            chars@ == json@,
            key@ == stop_key(),
            zero@ == "0"@,
            forall|j: int|
                0 <= j < i && #[trigger] text::starts_with(json@.skip(j), stop_key())
                    ==> text::starts_with(json@.skip(j + stop_key().len()), "0"@),
        decreases n - i,
    {
        proof {
            assert(chars@.subrange(i as int, n as int) =~= json@.skip(i as int));
        }
        if text::matches_at(&chars, i, n, &key) {
            let at: usize = i + key.len();
            proof {
                assert(chars@.subrange(at as int, n as int) =~= json@.skip(at as int));
            }
            if !text::matches_at(&chars, at, n, &zero) {
                return false;
            }
        }
        i = i + 1;
    }
    proof {
        reveal_strlit("\"stop\":");
        assert(!text::starts_with(json@.skip(n as int), stop_key()));
    }
    true
}

/// What an attempt to encode came to.
pub open spec fn outcome(r: Result<Vec<u32>, String>) -> Result<Seq<u32>, Seq<char>> {
    match r {
        Ok(ids) => Ok(ids@),
        Err(m) => Err(m@),
    }
}

/// A result holds the ids or the error that `model` names.
pub open spec fn gives(
    r: Result<Vec<u32>, Error>,
    model: Result<Seq<u32>, ErrorView>,
) -> bool {
    match r {
        Ok(ids) => model == Ok::<Seq<u32>, ErrorView>(ids@),
        Err(e) => model == Err::<Seq<u32>, ErrorView>(e@),
    }
}

/// `Tokenizer::decode` turns ids into text with the tokenizer's tables and
/// decoder; the result depends on the tokenizer, the ids and the flag alone. An
/// error is handed on as its message. A decoder that strips the ends of tokens
/// panics on a token that is too short, a `BPEDecoder` on no tokens, and a `Replace`
/// step on matches that overlap.
#[verifier::external_body]
pub(crate) fn decode(tokenizer: &Tokenizer, ids: &Vec<u32>, skip_special_tokens: bool) -> (r: Result<
    String,
    String,
>)
    requires
        decodes(*tokenizer),
    ensures
        match r {
            Ok(s) => decodings(*tokenizer)[(ids@, skip_special_tokens)] == Ok::<
                Seq<char>,
                Seq<char>,
            >(s@),
            Err(m) => decodings(*tokenizer)[(ids@, skip_special_tokens)] == Err::<
                Seq<char>,
                Seq<char>,
            >(m@),
        },
{
    tokenizer.decode(ids, skip_special_tokens).map_err(|e| e.to_string())
}

/// `Tokenizer::encode` without special tokens. A model with dropout splits words at
/// random, so the tokenizer and the text settle which outcomes are possible and not
/// which of them comes. An error is handed on as its message. The call panics on a text
/// that is too long for a truncation whose stride is not below its length, on padding
/// that memory cannot address, and where a step of the tokenizer cannot cut or align a
/// text: see [`added_tokens_stay_apart`], [`added_tokens_last`], [`keeps_alignment`],
/// [`cuts_in_order`] and [`processes_one`]. A unigram model may sample with weights that
/// cannot be drawn from.
#[verifier::external_body]
pub(crate) fn encode(tokenizer: &Tokenizer, input: &str) -> (r: Result<Vec<u32>, String>)
    requires
        encodes(*tokenizer),
    ensures
        encodings(*tokenizer)[input@].contains(outcome(r)),
{
    match tokenizer.encode(input, false) {
        Ok(encoding) => Ok(encoding.get_ids().to_vec()),
        Err(e) => Err(e.to_string()),
    }
}

/// What [`require`] reports for a vocabulary.
pub open spec fn required(
    vocabulary: Map<Seq<char>, u32>,
    model: Seq<char>,
    token: Seq<char>,
    expected: Option<u32>,
) -> Result<u32, ErrorView> {
    if !vocabulary.contains_key(token) {
        Err(ErrorView::Config(model + " tokenizer is missing "@ + text::debug_quoted(token)))
    } else if expected matches Some(id) && vocabulary[token] != id {
        Err(
            ErrorView::Config(
                model + " token "@ + text::debug_quoted(token) + " id mismatch: tokenizer "@
                    + text::dec(vocabulary[token] as nat) + " != config "@ + text::dec(
                    expected->0 as nat,
                ),
            ),
        )
    } else {
        Ok(vocabulary[token])
    }
}

/// The id of a token that a model cannot do without, checked against the id that
/// its configuration names.
pub fn require(tokenizer: &Tokenizer, model: &str, token: &str, expected: Option<u32>) -> (r: Result<
    u32,
    Error,
>)
    ensures
        error::tells(r, required(vocabulary(*tokenizer), model@, token@, expected)),
{
    let id = token_to_id(tokenizer, token);
    check_token(id, model, token, expected)
}

/// Checks the outcome of a token lookup.
pub fn check_token(id: Option<u32>, model: &str, token: &str, expected: Option<u32>) -> (r: Result<
    u32,
    Error,
>)
    ensures
        error::tells(
            r,
            required(
                if id is Some {
                    Map::<Seq<char>, u32>::empty().insert(token@, id->0)
                } else {
                    Map::empty()
                },
                model@,
                token@,
                expected,
            ),
        ),
{
    match id {
        None => Err(Message::new(model).text(" tokenizer is missing ").quoted(token).config()),
        Some(id) => {
            if let Some(expected) = expected {
                if id != expected {
                    return Err(
                        Message::new(model).text(" token ").quoted(token).text(
                            " id mismatch: tokenizer ",
                        ).num(id as u64).text(" != config ").num(expected as u64).config(),
                    );
                }
            }
            Ok(id)
        },
    }
}

/// A required token is found when the vocabulary has it under the id that is expected,
/// or under any id where none is.
pub proof fn law_required_token_has_its_id(
    vocabulary: Map<Seq<char>, u32>,
    model: Seq<char>,
    token: Seq<char>,
    expected: Option<u32>,
    id: u32,
)
    ensures
        required(vocabulary, model, token, expected) == Ok::<u32, ErrorView>(id) <==> {
            &&& vocabulary.contains_key(token)
            &&& vocabulary[token] == id
            &&& expected is None || expected == Some(id)
        },
{
}

/// A setting is missed exactly when it stands nowhere, and stands once at most when no
/// two places have it.
pub proof fn law_missing_setting_stands_nowhere(json: Seq<char>, pat: Seq<char>)
    requires
        pat.len() > 0,
    ensures
        lacks(json, pat) <==> forall|j: int| !#[trigger] text::occurs_at(json, pat, j),
        at_most_once(json, pat) <==> forall|i: int, j: int|
            i < j ==> !(#[trigger] text::occurs_at(json, pat, i) && #[trigger] text::occurs_at(
                json,
                pat,
                j,
            )),
{
    text::law_found_is_the_first_occurrence(json, pat);
    if let Some(i) = text::find(json, pat) {
        let rest = json.skip(i as int + 1);
        text::law_found_is_the_first_occurrence(rest, pat);
        assert forall|j: int| j >= 0 implies #[trigger] text::occurs_at(rest, pat, j)
            == text::occurs_at(json, pat, j + i + 1) by {
            if j + pat.len() <= rest.len() {
                assert(rest.subrange(j, j + pat.len()) =~= json.subrange(
                    j + i + 1,
                    j + i + 1 + pat.len(),
                ));
            }
        }
        if lacks(rest, pat) {
            assert forall|a: int, b: int| a < b implies !(#[trigger] text::occurs_at(json, pat, a)
                && #[trigger] text::occurs_at(json, pat, b)) by {
                if text::occurs_at(json, pat, a) && text::occurs_at(json, pat, b) {
                    assert(a >= i);
                    assert(text::occurs_at(rest, pat, b - i - 1));
                }
            }
        } else {
            let k = text::find(rest, pat)->Some_0;
            assert(text::occurs_at(rest, pat, k as int));
            assert(text::occurs_at(json, pat, k as int + i + 1));
        }
    }
}

/// What a tokenizer is refused for stands in its settings: added tokens that take white
/// space along, a normalizer that loses track of its characters, a pre-tokenizer whose
/// pieces may not follow each other.
pub proof fn law_refused_settings_stand_in_the_text(json: Seq<char>, j: int)
    ensures
        text::occurs_at(json, "\"lstrip\":true"@, j) || text::occurs_at(
            json,
            "\"rstrip\":true"@,
            j,
        ) ==> !added_tokens_stay_apart(json),
        text::occurs_at(json, "\"Regex\":"@, j) || text::occurs_at(json, "\"String\":\"\""@, j)
            || text::occurs_at(json, "\"prepend\":\"\""@, j) || text::occurs_at(
            json,
            "\"precompiled_charsmap\":"@,
            j,
        ) ==> !keeps_alignment(json),
        text::occurs_at(json, "\"length\":0"@, j) || text::occurs_at(json, "\\\\K"@, j)
            ==> !cuts_in_order(json),
        text::occurs_at(json, "\"type\":\"BPEDecoder\""@, j) || text::occurs_at(json, "\\\\K"@, j)
            ==> !takes_all_tokens(json),
{
    text::law_found_is_the_first_occurrence(json, "\"lstrip\":true"@);
    text::law_found_is_the_first_occurrence(json, "\"rstrip\":true"@);
    text::law_found_is_the_first_occurrence(json, "\"Regex\":"@);
    text::law_found_is_the_first_occurrence(json, "\"String\":\"\""@);
    text::law_found_is_the_first_occurrence(json, "\"prepend\":\"\""@);
    text::law_found_is_the_first_occurrence(json, "\"precompiled_charsmap\":"@);
    text::law_found_is_the_first_occurrence(json, "\"length\":0"@);
    text::law_found_is_the_first_occurrence(json, "\\\\K"@);
    text::law_found_is_the_first_occurrence(json, "\"type\":\"BPEDecoder\""@);
}

/// Cutting works when no more is repeated than a piece holds, less one; filling up works
/// up to 2 to the power of 24.
pub proof fn law_cutting_and_filling_have_limits(max_length: usize, stride: usize, size: usize)
    ensures
        truncates(None),
        truncates(Some((max_length, stride))) <==> max_length == 0 || stride < max_length,
        pads(None),
        pads(Some((Some(size), None))) <==> size <= 16_777_216,
        pads(Some((None, Some(size)))) <==> size <= 16_777_216,
{
}

/// Added tokens that are not normalized last, whatever the normalizer; if they are, the
/// normalizer may have no step that can leave nothing of a text.
pub proof fn law_added_tokens_last_unless_normalized_away(added: Seq<char>, normalizer: Seq<char>, i: int, j: int)
    ensures
        (forall|k: int| !#[trigger] text::occurs_at(added, "\"normalized\":true"@, k))
            ==> added_tokens_last(added, normalizer),
        text::occurs_at(added, "\"normalized\":true"@, i) && (text::occurs_at(
            normalizer,
            "\"type\":\"Strip"@,
            j,
        ) || text::occurs_at(normalizer, "\"type\":\"BertNormalizer\""@, j) || text::occurs_at(
            normalizer,
            "\"type\":\"Nmt\""@,
            j,
        ) || text::occurs_at(normalizer, "\"content\":\"\""@, j)) ==> !added_tokens_last(
            added,
            normalizer,
        ),
{
    text::law_found_is_the_first_occurrence(added, "\"normalized\":true"@);
    text::law_found_is_the_first_occurrence(normalizer, "\"type\":\"Strip"@);
    text::law_found_is_the_first_occurrence(normalizer, "\"type\":\"BertNormalizer\""@);
    text::law_found_is_the_first_occurrence(normalizer, "\"type\":\"Nmt\""@);
    text::law_found_is_the_first_occurrence(normalizer, "\"content\":\"\""@);
}

/// A template asks for a second text when its list for one text names one: behind the
/// beginning of that list and before that of the list for two. One that names a second
/// text nowhere does not ask for it. A second template is refused.
pub proof fn law_template_asks_for_what_its_list_names(json: Seq<char>, a: int, b: int)
    ensures
        a < b && text::occurs_at(json, "\"single\":["@, a) && text::occurs_at(
            json,
            "\"Sequence\":{\"id\":\"B\""@,
            b,
        ) && (forall|k: int|
            a < k < b ==> !#[trigger] text::occurs_at(json, "\"pair\":["@, k)) ==> !processes_one(
            json,
        ),
        a < b && text::occurs_at(json, "\"type\":\"TemplateProcessing\""@, a) && text::occurs_at(
            json,
            "\"type\":\"TemplateProcessing\""@,
            b,
        ) ==> !processes_one(json),
        (forall|k: int| !#[trigger] text::occurs_at(json, "\"Sequence\":{\"id\":\"B\""@, k))
            ==> !asks_for_second(json, 0, false),
{
    if a < b && text::occurs_at(json, "\"single\":["@, a) && text::occurs_at(
        json,
        "\"Sequence\":{\"id\":\"B\""@,
        b,
    ) && (forall|k: int| a < k < b ==> !#[trigger] text::occurs_at(json, "\"pair\":["@, k)) {
        lemma_second_is_met(json, 0, false, a, b);
    }
    if forall|k: int| !#[trigger] text::occurs_at(json, "\"Sequence\":{\"id\":\"B\""@, k) {
        lemma_second_is_not_met(json, 0, false);
    }
    reveal_strlit("\"type\":\"TemplateProcessing\"");
    law_missing_setting_stands_nowhere(json, "\"type\":\"TemplateProcessing\""@);
}

/// What stands at a place is what the rest of the text begins with.
proof fn lemma_place(json: Seq<char>, pat: Seq<char>, i: int)
    requires
        0 <= i <= json.len(),
    ensures
        text::starts_with(json.skip(i), pat) <==> text::occurs_at(json, pat, i),
{
    if i + pat.len() <= json.len() {
        assert(json.skip(i).take(pat.len() as int) =~= json.subrange(i, i + pat.len()));
    }
}

/// The search comes upon the second text.
proof fn lemma_second_is_met(json: Seq<char>, i: int, inside: bool, a: int, b: int)
    requires
        0 <= i <= b,
        i > a ==> inside,
        a < b,
        text::occurs_at(json, "\"single\":["@, a),
        text::occurs_at(json, "\"Sequence\":{\"id\":\"B\""@, b),
        forall|k: int| a < k < b ==> !#[trigger] text::occurs_at(json, "\"pair\":["@, k),
    ensures
        asks_for_second(json, i, inside),
    decreases b - i,
{
    reveal_strlit("\"single\":[");
    reveal_strlit("\"pair\":[");
    reveal_strlit("\"Sequence\":{\"id\":\"B\"");
    let single = "\"single\":["@;
    let pair = "\"pair\":["@;
    let second = "\"Sequence\":{\"id\":\"B\""@;
    lemma_place(json, single, i);
    lemma_place(json, pair, i);
    lemma_place(json, second, i);
    if i == b {
        let found = json.subrange(i, i + second.len());
        assert(found[1] == json[i + 1]);
        if text::occurs_at(json, single, i) {
            assert(json.subrange(i, i + single.len())[1] == json[i + 1]);
        }
        if text::occurs_at(json, pair, i) {
            assert(json.subrange(i, i + pair.len())[1] == json[i + 1]);
        }
    } else if text::occurs_at(json, single, i) {
        lemma_second_is_met(json, i + 1, true, a, b);
    } else if text::occurs_at(json, pair, i) {
        assert(i < a);
        lemma_second_is_met(json, i + 1, false, a, b);
    } else if inside && text::occurs_at(json, second, i) {
    } else {
        assert(i != a);
        lemma_second_is_met(json, i + 1, inside, a, b);
    }
}

/// The search comes to the end of the text.
proof fn lemma_second_is_not_met(json: Seq<char>, i: int, inside: bool)
    requires
        0 <= i,
        forall|k: int| !#[trigger] text::occurs_at(json, "\"Sequence\":{\"id\":\"B\""@, k),
    ensures
        !asks_for_second(json, i, inside),
    decreases json.len() - i,
{
    if i < json.len() {
        lemma_place(json, "\"Sequence\":{\"id\":\"B\""@, i);
        lemma_second_is_not_met(json, i + 1, true);
        lemma_second_is_not_met(json, i + 1, false);
        lemma_second_is_not_met(json, i + 1, inside);
    }
}

/// A decoder that strips the ends of tokens is refused: behind every `stop` has to be
/// a zero.
pub proof fn law_stripped_ends_are_refused(json: Seq<char>, i: int)
    requires
        text::occurs_at(json, "\"stop\":"@, i),
        i + 7 < json.len() ==> json[i + 7] != '0',
    ensures
        !strips_no_end(json),
        !takes_all_tokens(json),
{
    reveal_strlit("\"stop\":");
    reveal_strlit("0");
    lemma_place(json, "\"stop\":"@, i);
    assert(text::starts_with(json.skip(i), stop_key()));
    if text::starts_with(json.skip(i + 7), "0"@) {
        assert(json.skip(i + 7).take(1)[0] == json[i + 7]);
        assert("0"@[0] == '0');
    }
}

/// A result holds the ids that it should, or fails with the error that it should.
pub proof fn law_result_holds_its_ids(r: Result<Vec<u32>, Error>, ids: Seq<u32>, problem: ErrorView)
    ensures
        gives(r, Ok(ids)) <==> (r matches Ok(v) && v@ == ids),
        gives(r, Err(problem)) <==> (r matches Err(e) && e@ == problem),
{
}

/// What an attempt to encode came to is told as it is.
pub proof fn law_outcome_is_what_came(ids: Vec<u32>, message: String)
    ensures
        outcome(Ok(ids)) == Ok::<Seq<u32>, Seq<char>>(ids@),
        outcome(Err(message)) == Err::<Seq<u32>, Seq<char>>(message@),
{
}

} // verus!
