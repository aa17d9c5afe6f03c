//! Region recognition.
use crate::error::{self, Error, ErrorView, Message};
use crate::mineru::adapter;
use crate::recognition::{BackendCapabilities, RecognitionTask};
use crate::text;
use vstd::arithmetic::div_mod;
use vstd::prelude::*;

verus! {

/// The least multiple of `block` that is not below `n`.
pub open spec fn next_multiple(n: int, block: int) -> int {
    if n % block == 0 {
        n
    } else {
        n - n % block + block
    }
}

/// The length that is generated for at most `max_tokens` tokens: whole blocks, none
/// where no token is wanted.
pub open spec fn length_for(max_tokens: usize, block_length: usize) -> Result<
    Option<usize>,
    ErrorView,
> {
    if max_tokens == 0 {
        Ok(None)
    } else if block_length == 0 || next_multiple(max_tokens as int, block_length as int)
        > usize::MAX {
        Err(
            ErrorView::InvalidInput(
                "MinerU-Diffusion max_tokens "@ + text::dec(max_tokens as nat)
                    + " is too large"@,
            ),
        )
    } else {
        Ok(Some(next_multiple(max_tokens as int, block_length as int) as usize))
    }
}

/// Plans the length of an answer.
pub fn generation_length(max_tokens: usize, block_length: usize) -> (r: Result<
    Option<usize>,
    Error,
>)
    ensures
        error::tells(r, length_for(max_tokens, block_length)),
{
    if max_tokens == 0 {
        return Ok(None);
    }
    if block_length > 0 {
        let rest: usize = max_tokens % block_length;
        if rest == 0 {
            return Ok(Some(max_tokens));
        }
        if let Some(length) = max_tokens.checked_add(block_length - rest) {
            return Ok(Some(length));
        }
    }
    Err(
        Message::new("MinerU-Diffusion max_tokens ").num(max_tokens as u64).text(
            " is too large",
        ).invalid_input(),
    )
}

/// The generated length is the least number of whole blocks that holds the tokens.
pub proof fn law_length_is_the_least_that_fits(max_tokens: int, block: int, blocks: int)
    requires
        max_tokens >= 0,
        block > 0,
    ensures
        next_multiple(max_tokens, block) >= max_tokens,
        next_multiple(max_tokens, block) % block == 0,
        next_multiple(max_tokens, block) < max_tokens + block,
        blocks * block >= max_tokens ==> blocks * block >= next_multiple(max_tokens, block),
{
    div_mod::lemma_fundamental_div_mod(max_tokens, block);
    let q = max_tokens / block;
    assert(block * q == q * block) by (nonlinear_arith);
    if max_tokens % block != 0 {
        assert(next_multiple(max_tokens, block) == (q + 1) * block) by (nonlinear_arith)
            requires
                next_multiple(max_tokens, block) == max_tokens - max_tokens % block + block,
                max_tokens == q * block + max_tokens % block,
        ;
        div_mod::lemma_fundamental_div_mod_converse((q + 1) * block, block, q + 1, 0);
        if blocks * block >= max_tokens {
            assert(blocks >= q + 1) by (nonlinear_arith)
                requires
                    blocks * block >= max_tokens,
                    max_tokens == q * block + max_tokens % block,
                    max_tokens % block > 0,
                    block > 0,
            ;
            assert(blocks * block >= (q + 1) * block) by (nonlinear_arith)
                requires
                    blocks >= q + 1,
                    block > 0,
            ;
        }
    }
}

/// Cuts an answer down to the tokens that were asked for.
pub fn cut_answer(tokens: &mut Vec<u32>, max_tokens: usize)
    ensures
        final(tokens)@ == if old(tokens)@.len() > max_tokens {
            old(tokens)@.take(max_tokens as int)
        } else {
            old(tokens)@
        },
{
    if tokens.len() > max_tokens {
        tokens.truncate(max_tokens);
    }
}

/// The instruction for a recognition task.
pub fn prompt(task: RecognitionTask) -> (s: &'static str)
    ensures
        s@ == adapter::task_prompt(task),
{
    adapter::prompt(task)
}

/// What callers have to know of the answers, where nothing else is `usual`.
pub fn capabilities(usual: BackendCapabilities) -> (c: BackendCapabilities)
    ensures
        c == (BackendCapabilities {
            table_output_is_otsl: true,
            truncate_repetitive_output: true,
            ..usual
        }),
{
    BackendCapabilities { table_output_is_otsl: true, truncate_repetitive_output: true, ..usual }
}

/// An answer is planned in whole blocks: none for no tokens, else the least number of
/// them that holds the tokens. It fails only without blocks or beyond what a length
/// can be.
pub proof fn law_answer_is_planned_in_whole_blocks(max_tokens: usize, block_length: usize, blocks: int)
    ensures
        max_tokens == 0 ==> length_for(max_tokens, block_length) == Ok::<Option<usize>, ErrorView>(
            None,
        ),
        max_tokens > 0 && block_length == 0 ==> length_for(max_tokens, block_length) is Err,
        max_tokens > 0 && block_length > 0 ==> match length_for(max_tokens, block_length) {
            Ok(Some(n)) => {
                &&& n % block_length == 0
                &&& max_tokens <= n < max_tokens + block_length
            },
            Ok(None) => false,
            Err(_) => blocks * block_length >= max_tokens ==> blocks * block_length > usize::MAX,
        },
{
    if max_tokens > 0 && block_length > 0 {
        law_length_is_the_least_that_fits(max_tokens as int, block_length as int, blocks);
    }
}

/// An answer that cannot be planned is a fault of the request.
pub proof fn law_fault_is_of_the_request(max_tokens: usize, block_length: usize)
    ensures
        length_for(max_tokens, block_length) matches Err(e) ==> e is InvalidInput,
{
}

} // verus!
