//! The layout of the recurrent gated delta rule.
use crate::error::{self, Error, ErrorView, Message};
use crate::numbers;
use crate::text;
use vstd::prelude::*;

verus! {

/// The dimensions of one run of the rule.
#[derive(Debug, Clone, Copy, PartialEq, Eq, Structural)]
pub struct GatedDeltaRule {
    pub batch: usize,
    pub sequence: usize,
    pub heads: usize,
    pub head_dim: usize,
}

/// A shape of four dimensions.
pub type Shape4 = (usize, usize, usize, usize);

/// A shape as it is written in messages.
pub open spec fn shape_text(s: Shape4) -> Seq<char> {
    "["@ + text::dec(s.0 as nat) + ", "@ + text::dec(s.1 as nat) + ", "@ + text::dec(s.2 as nat)
        + ", "@ + text::dec(s.3 as nat) + "]"@
}

/// Adds a shape to a message.
fn with_shape(message: Message, s: Shape4) -> (m: Message)
    ensures
        m@ == message@ + shape_text(s),
{
    let m = message.text("[").num(s.0 as u64).text(", ").num(s.1 as u64).text(", ").num(
        s.2 as u64,
    ).text(", ").num(s.3 as u64).text("]");
    proof {
        assert(m@ =~= message@ + shape_text(s));
    }
    m
}

/// The dimensions that the shapes of packed queries, keys and values, of decays and
/// of the state agree on, or the first that does not fit.
pub open spec fn rule_for(qkv: Shape4, gate_beta: Shape4, state: Shape4) -> Result<
    GatedDeltaRule,
    ErrorView,
> {
    let d = qkv.3 as int / 3;
    if qkv.0 == 0 || qkv.1 == 0 || qkv.2 == 0 || qkv.3 == 0 || qkv.3 % 3 != 0 {
        Err(
            ErrorView::InvalidInput(
                "gated delta rule expects non-empty qkv [B,S,H,3D], got "@ + shape_text(qkv),
            ),
        )
    } else if gate_beta != (qkv.0, qkv.1, qkv.2, 2usize) {
        Err(
            ErrorView::InvalidInput(
                "gated delta rule expects gate_beta [B,S,H,2], got "@ + shape_text(gate_beta)
                    + " for qkv "@ + shape_text(qkv),
            ),
        )
    } else if state != (qkv.0, qkv.2, d as usize, d as usize) {
        Err(
            ErrorView::InvalidInput(
                "gated delta rule expects initial_state [B,H,D,D], got "@ + shape_text(state)
                    + " for qkv "@ + shape_text(qkv),
            ),
        )
    } else {
        Ok(
            GatedDeltaRule { batch: qkv.0, sequence: qkv.1, heads: qkv.2, head_dim: d as usize },
        )
    }
}

/// Checks the shapes of the inputs.
pub fn validate_inputs(qkv: Shape4, gate_beta: Shape4, initial_state: Shape4) -> (r: Result<
    GatedDeltaRule,
    Error,
>)
    ensures
        error::tells(r, rule_for(qkv, gate_beta, initial_state)),
{
    let (batch, sequence, heads, packed_dim): (usize, usize, usize, usize) = qkv;
    if batch == 0 || sequence == 0 || heads == 0 || packed_dim == 0 || packed_dim % 3 != 0 {
        return Err(
            with_shape(
                Message::new("gated delta rule expects non-empty qkv [B,S,H,3D], got "),
                qkv,
            ).invalid_input(),
        );
    }
    let head_dim: usize = packed_dim / 3;
    if gate_beta.0 != batch || gate_beta.1 != sequence || gate_beta.2 != heads || gate_beta.3
        != 2 {
        return Err(
            with_shape(
                with_shape(
                    Message::new("gated delta rule expects gate_beta [B,S,H,2], got "),
                    gate_beta,
                ).text(" for qkv "),
                qkv,
            ).invalid_input(),
        );
    }
    if initial_state.0 != batch || initial_state.1 != heads || initial_state.2 != head_dim
        || initial_state.3 != head_dim {
        return Err(
            with_shape(
                with_shape(
                    Message::new("gated delta rule expects initial_state [B,H,D,D], got "),
                    initial_state,
                ).text(" for qkv "),
                qkv,
            ).invalid_input(),
        );
    }
    Ok(GatedDeltaRule { batch, sequence, heads, head_dim })
}

/// The first thing wrong with where the inputs are and what numbers they hold, by
/// the names of devices and kinds of numbers.
pub open spec fn kind_problem(
    same_device: bool,
    devices: (Seq<char>, Seq<char>, Seq<char>),
    kinds: (Seq<char>, Seq<char>, Seq<char>),
) -> Option<ErrorView> {
    if !same_device {
        Some(
            ErrorView::InvalidInput(
                "gated delta rule inputs must be on the same device, got qkv="@ + devices.0
                    + ", gate_beta="@ + devices.1 + ", state="@ + devices.2,
            ),
        )
    } else if kinds.0 != "BF16"@ && kinds.0 != "F16"@ && kinds.0 != "F32"@ {
        Some(
            ErrorView::InvalidInput(
                "gated delta rule supports BF16, F16, or F32 QKV, got "@ + kinds.0,
            ),
        )
    } else if kinds.1 != "F32"@ || kinds.2 != "F32"@ {
        Some(
            ErrorView::InvalidInput(
                "gated delta rule requires F32 gate_beta and initial_state, got "@ + kinds.1
                    + " and "@ + kinds.2,
            ),
        )
    } else {
        None
    }
}

/// Checks where the inputs are and what numbers they hold.
pub fn validate_kinds(
    same_device: bool,
    devices: (&str, &str, &str),
    kinds: (&str, &str, &str),
) -> (r: Result<(), Error>)
    ensures
        error::verdict(
            kind_problem(
                same_device,
                (devices.0@, devices.1@, devices.2@),
                (kinds.0@, kinds.1@, kinds.2@),
            ),
            r,
        ),
{
    if !same_device {
        return Err(
            Message::new("gated delta rule inputs must be on the same device, got qkv=").text(
                devices.0,
            ).text(", gate_beta=").text(devices.1).text(", state=").text(
                devices.2,
            ).invalid_input(),
        );
    }
    if !text::same(kinds.0, "BF16") && !text::same(kinds.0, "F16") && !text::same(
        kinds.0,
        "F32",
    ) {
        return Err(
            Message::new("gated delta rule supports BF16, F16, or F32 QKV, got ").text(
                kinds.0,
            ).invalid_input(),
        );
    }
    if !text::same(kinds.1, "F32") || !text::same(kinds.2, "F32") {
        return Err(
            Message::new("gated delta rule requires F32 gate_beta and initial_state, got ").text(
                kinds.1,
            ).text(" and ").text(kinds.2).invalid_input(),
        );
    }
    Ok(())
}

/// The size of the rows of `a` groups of `b`.
proof fn lemma_index(i: int, a: int, j: int, b: int)
    requires
        0 <= i < a,
        0 <= j < b,
    ensures
        0 <= i * b + j < a * b,
        (i + 1) * b <= a * b,
        0 <= i * b,
{
    assert(0 <= i * b && i * b + j < a * b && (i + 1) * b <= a * b) by (nonlinear_arith)
        requires
            0 <= i <= a - 1,
            0 <= j < b,
    ;
}

impl GatedDeltaRule {
    /// The shapes of the inputs of this run.
    pub open spec fn expected_shapes(self) -> (Shape4, Shape4, Shape4) {
        (
            (self.batch, self.sequence, self.heads, (self.head_dim * 3) as usize),
            (self.batch, self.sequence, self.heads, 2usize),
            (self.batch, self.heads, self.head_dim, self.head_dim),
        )
    }

    /// The first thing wrong with the layouts of the inputs.
    pub open spec fn layout_problem(
        self,
        contiguous: bool,
        qkv: Shape4,
        gate_beta: Shape4,
        state: Shape4,
    ) -> Option<ErrorView> {
        let expected = self.expected_shapes();
        if !contiguous {
            Some(ErrorView::InvalidInput("gated delta rule requires contiguous tensors"@))
        } else if qkv != expected.0 || gate_beta != expected.1 || state != expected.2 {
            Some(
                ErrorView::InvalidInput(
                    "gated delta rule shape mismatch: qkv="@ + shape_text(qkv) + " (expected "@
                        + shape_text(expected.0) + "), gate_beta="@ + shape_text(gate_beta)
                        + " (expected "@ + shape_text(expected.1) + "), state="@ + shape_text(state)
                        + " (expected "@ + shape_text(expected.2) + ")"@,
                ),
            )
        } else {
            None
        }
    }

    /// Checks the layouts of the inputs; `contiguous` tells whether all of them are
    /// without gaps.
    pub fn validate_layouts(
        &self,
        contiguous: bool,
        qkv: Shape4,
        gate_beta: Shape4,
        state: Shape4,
    ) -> (r: Result<(), Error>)
        requires
            self.head_dim * 3 <= usize::MAX,
        ensures
            error::verdict(self.layout_problem(contiguous, qkv, gate_beta, state), r),
    {
        if !contiguous {
            return Err(Error::invalid_input("gated delta rule requires contiguous tensors"));
        }
        let expected_qkv: Shape4 = (self.batch, self.sequence, self.heads, self.head_dim * 3);
        let expected_gate: Shape4 = (self.batch, self.sequence, self.heads, 2);
        let expected_state: Shape4 = (self.batch, self.heads, self.head_dim, self.head_dim);
        if !same_shape(qkv, expected_qkv) || !same_shape(gate_beta, expected_gate) || !same_shape(
            state,
            expected_state,
        ) {
            let m = with_shape(Message::new("gated delta rule shape mismatch: qkv="), qkv);
            let m = with_shape(m.text(" (expected "), expected_qkv);
            let m = with_shape(m.text("), gate_beta="), gate_beta);
            let m = with_shape(m.text(" (expected "), expected_gate);
            let m = with_shape(m.text("), state="), state);
            let m = with_shape(m.text(" (expected "), expected_state);
            return Err(m.text(")").invalid_input());
        }
        Ok(())
    }
}

/// Whether two shapes agree.
fn same_shape(a: Shape4, b: Shape4) -> (r: bool)
    ensures
        r == (a == b),
{
    a.0 == b.0 && a.1 == b.1 && a.2 == b.2 && a.3 == b.3
}

/// The largest head of which a CUDA kernel can be run.
pub const MAX_CUDA_HEAD_DIM: usize = 256;

/// Checks that a CUDA kernel can be run.
pub fn validate_cuda_head_dim(head_dim: usize) -> (r: Result<(), Error>)
    ensures
        error::verdict(
            if head_dim > 256 {
                Some(
                    ErrorView::InvalidInput(
                        "gated delta rule CUDA kernel supports head_dim <= 256, got "@ + text::dec(
                            head_dim as nat,
                        ),
                    ),
                )
            } else {
                None
            },
            r,
        ),
{
    if head_dim > MAX_CUDA_HEAD_DIM {
        return Err(
            Message::new("gated delta rule CUDA kernel supports head_dim <= 256, got ").num(
                head_dim as u64,
            ).invalid_input(),
        );
    }
    Ok(())
}

impl GatedDeltaRule {
    /// The number of outputs of all tokens.
    pub open spec fn spec_core_len(self) -> int {
        self.batch * self.sequence * self.heads * self.head_dim
    }

    /// The number of entries of all states.
    pub open spec fn spec_state_len(self) -> int {
        self.batch * self.heads * self.head_dim * self.head_dim
    }

    /// All sizes can be held in a length.
    pub open spec fn fits(self) -> bool {
        &&& self.batch * self.sequence <= usize::MAX
        &&& self.batch * self.sequence * self.heads <= usize::MAX
        &&& self.batch * self.heads <= usize::MAX
        &&& self.batch * self.heads * self.head_dim <= usize::MAX
        &&& 3 * self.spec_core_len() <= usize::MAX
        &&& 2 * (self.batch * self.sequence * self.heads) <= usize::MAX
        &&& self.spec_core_len() + self.spec_state_len() <= usize::MAX
    }

    /// The number of outputs of all tokens.
    pub fn core_len(&self) -> (n: usize)
        requires
            self.fits(),
        ensures
            n == self.spec_core_len(),
    {
        proof {
            assert(self.spec_core_len() >= 0 && self.spec_state_len() >= 0) by (nonlinear_arith)
                requires
                    self.spec_core_len() == self.batch * self.sequence * self.heads
                        * self.head_dim,
                    self.spec_state_len() == self.batch * self.heads * self.head_dim
                        * self.head_dim,
            ;
        }
        self.batch * self.sequence * self.heads * self.head_dim
    }

    /// The number of entries of all states.
    pub fn state_len(&self) -> (n: usize)
        requires
            self.fits(),
        ensures
            n == self.spec_state_len(),
    {
        proof {
            assert(self.spec_core_len() >= 0) by (nonlinear_arith)
                requires
                    self.spec_core_len() == self.batch * self.sequence * self.heads
                        * self.head_dim,
            ;
        }
        self.batch * self.heads * self.head_dim * self.head_dim
    }

    /// The number of entries of outputs and states, one behind the other.
    pub fn packed_len(&self) -> (n: usize)
        requires
            self.fits(),
        ensures
            n == self.spec_core_len() + self.spec_state_len(),
    {
        self.core_len() + self.state_len()
    }

    /// The number of a token of a head.
    pub open spec fn token(self, batch: int, token: int, head: int) -> int {
        (batch * self.sequence + token) * self.heads + head
    }

    /// There is such a token.
    pub open spec fn has(self, batch: int, token: int, head: int) -> bool {
        0 <= batch < self.batch && 0 <= token < self.sequence && 0 <= head < self.heads
    }

    /// Where the state of a head begins.
    pub open spec fn state_at(self, batch: int, head: int) -> int {
        (batch * self.heads + head) * self.head_dim * self.head_dim
    }

    /// Tokens are numbered without gaps.
    proof fn lemma_token(self, batch: int, token: int, head: int)
        requires
            self.has(batch, token, head),
        ensures
            0 <= batch * self.sequence + token < self.batch * self.sequence,
            0 <= self.token(batch, token, head) < self.batch * self.sequence * self.heads,
            0 <= batch * self.sequence,
            0 <= (batch * self.sequence + token) * self.heads,
    {
        lemma_index(batch, self.batch as int, token, self.sequence as int);
        lemma_index(
            batch * self.sequence + token,
            self.batch * self.sequence,
            head,
            self.heads as int,
        );
    }

    /// Where the outputs of a token begin.
    pub fn output_offset(&self, batch: usize, token: usize, head: usize) -> (at: usize)
        requires
            self.fits(),
            self.has(batch as int, token as int, head as int),
        ensures
            at == self.token(batch as int, token as int, head as int) * self.head_dim,
            at + self.head_dim <= self.spec_core_len(),
    {
        let ghost t = self.token(batch as int, token as int, head as int);
        proof {
            self.lemma_token(batch as int, token as int, head as int);
            let n = self.batch * self.sequence * self.heads;
            assert(0 <= t * self.head_dim && t * self.head_dim + self.head_dim <= n
                * self.head_dim) by (nonlinear_arith)
                requires
                    0 <= t <= n - 1,
                    self.head_dim >= 0,
            ;
        }
        ((batch * self.sequence + token) * self.heads + head) * self.head_dim
    }

    /// Where the query, key and value of a token begin.
    pub fn token_offset(&self, batch: usize, token: usize, head: usize) -> (at: usize)
        requires
            self.fits(),
            self.has(batch as int, token as int, head as int),
        ensures
            at == 3 * (self.token(batch as int, token as int, head as int) * self.head_dim),
            at + 3 * self.head_dim <= 3 * self.spec_core_len(),
    {
        self.output_offset(batch, token, head) * 3
    }

    /// Where the decay of a token is; its weight follows.
    pub fn gate_offset(&self, batch: usize, token: usize, head: usize) -> (at: usize)
        requires
            self.fits(),
            self.has(batch as int, token as int, head as int),
        ensures
            at == 2 * self.token(batch as int, token as int, head as int),
            at + 2 <= 2 * (self.batch * self.sequence * self.heads),
    {
        proof {
            self.lemma_token(batch as int, token as int, head as int);
        }
        ((batch * self.sequence + token) * self.heads + head) * 2
    }

    /// Where the state of a head begins.
    pub fn state_offset(&self, batch: usize, head: usize) -> (at: usize)
        requires
            self.fits(),
            batch < self.batch,
            head < self.heads,
        ensures
            at == self.state_at(batch as int, head as int),
            at + self.head_dim * self.head_dim <= self.spec_state_len(),
    {
        let ghost i = batch * self.heads + head;
        let ghost n = self.batch * self.heads;
        let ghost d = self.head_dim as int;
        proof {
            lemma_index(batch as int, self.batch as int, head as int, self.heads as int);
            assert(0 <= i * d <= n * d) by (nonlinear_arith)
                requires
                    0 <= i <= n - 1,
                    d >= 0,
            ;
            assert(0 <= i * d * d && i * d * d + d * d <= n * d * d) by (nonlinear_arith)
                requires
                    0 <= i <= n - 1,
                    d >= 0,
            ;
            assert(self.spec_core_len() >= 0) by (nonlinear_arith)
                requires
                    self.spec_core_len() == self.batch * self.sequence * self.heads
                        * self.head_dim,
            ;
        }
        (batch * self.heads + head) * self.head_dim * self.head_dim
    }

    /// No two tokens share a number, and so no output, query or decay.
    pub proof fn law_tokens_are_apart(self, b1: int, t1: int, h1: int, b2: int, t2: int, h2: int)
        requires
            self.has(b1, t1, h1),
            self.has(b2, t2, h2),
            self.token(b1, t1, h1) == self.token(b2, t2, h2),
        ensures
            b1 == b2,
            t1 == t2,
            h1 == h2,
    {
        let heads = self.heads as int;
        let seq = self.sequence as int;
        let a1 = b1 * seq + t1;
        let a2 = b2 * seq + t2;
        numbers::lemma_parts(a1, h1, heads);
        numbers::lemma_parts(a2, h2, heads);
        numbers::lemma_parts(b1, t1, seq);
        numbers::lemma_parts(b2, t2, seq);
    }
}

/// The shapes fit when none of the packed ones is empty, queries, keys and values have
/// the same width, each token of a head has two gates, and each head a square state.
pub proof fn law_shapes_fit_together(qkv: Shape4, gates: Shape4, state: Shape4, width: usize)
    requires
        3 * width <= usize::MAX,
    ensures
        match rule_for(qkv, gates, state) {
            Ok(rule) => {
                &&& qkv == (rule.batch, rule.sequence, rule.heads, (3 * rule.head_dim) as usize)
                &&& 3 * rule.head_dim <= usize::MAX
                &&& gates == (rule.batch, rule.sequence, rule.heads, 2usize)
                &&& state == (rule.batch, rule.heads, rule.head_dim, rule.head_dim)
                &&& rule.batch > 0
                &&& rule.sequence > 0
                &&& rule.heads > 0
                &&& rule.head_dim > 0
            },
            Err(_) => {
                ||| qkv.0 == 0
                ||| qkv.1 == 0
                ||| qkv.2 == 0
                ||| width == 0
                ||| qkv.3 != 3 * width
                ||| gates != (qkv.0, qkv.1, qkv.2, 2usize)
                ||| state != (qkv.0, qkv.2, width, width)
            },
        },
{
}

/// Inputs are sound on one device, with numbers of 16 or 32 bits in the packed ones and
/// of 32 bits in gates and states.
pub proof fn law_inputs_are_of_known_kinds(
    same_device: bool,
    devices: (Seq<char>, Seq<char>, Seq<char>),
    kinds: (Seq<char>, Seq<char>, Seq<char>),
)
    ensures
        kind_problem(same_device, devices, kinds) is None <==> {
            &&& same_device
            &&& kinds.0 == "BF16"@ || kinds.0 == "F16"@ || kinds.0 == "F32"@
            &&& kinds.1 == "F32"@
            &&& kinds.2 == "F32"@
        },
{
}

impl GatedDeltaRule {
    /// Layouts are sound when there are no gaps and the shapes are those of the run.
    pub proof fn law_layouts_are_those_of_the_run(
        self,
        contiguous: bool,
        qkv: Shape4,
        gates: Shape4,
        state: Shape4,
    )
        requires
            3 * self.head_dim <= usize::MAX,
        ensures
            self.layout_problem(contiguous, qkv, gates, state) is None <==> {
                &&& contiguous
                &&& qkv.0 == self.batch && qkv.1 == self.sequence && qkv.2 == self.heads && qkv.3
                    == 3 * self.head_dim
                &&& gates.0 == self.batch && gates.1 == self.sequence && gates.2 == self.heads
                    && gates.3 == 2
                &&& state.0 == self.batch && state.1 == self.heads && state.2 == self.head_dim
                    && state.3 == self.head_dim
            },
    {
    }

    /// The tokens of all heads are numbered from zero: head by head, each token behind
    /// the one before it, and each batch behind the one before it.
    pub proof fn law_tokens_follow_each_other(self, batch: int, token: int, head: int)
        requires
            self.sequence > 0,
            self.heads > 0,
        ensures
            self.token(0, 0, 0) == 0,
            self.token(batch, token, head + 1) == self.token(batch, token, head) + 1,
            self.token(batch, token + 1, 0) == self.token(batch, token, self.heads - 1) + 1,
            self.token(batch + 1, 0, 0) == self.token(batch, self.sequence - 1, self.heads - 1)
                + 1,
    {
        let heads = self.heads as int;
        let seq = self.sequence as int;
        assert((0 * seq + 0) * heads + 0 == 0) by (nonlinear_arith);
        assert((batch * seq + (token + 1)) * heads + 0 == (batch * seq + token) * heads + (heads
            - 1) + 1) by (nonlinear_arith);
        assert(((batch + 1) * seq + 0) * heads + 0 == (batch * seq + (seq - 1)) * heads + (heads
            - 1) + 1) by (nonlinear_arith);
    }

    /// The states follow each other head by head, without a gap; all of them together
    /// and all outputs together take the room that is counted.
    pub proof fn law_states_follow_each_other(self, batch: int, head: int)
        requires
            self.batch > 0,
            self.sequence > 0,
            self.heads > 0,
        ensures
            self.state_at(0, 0) == 0,
            self.state_at(batch, head + 1) == self.state_at(batch, head) + self.head_dim
                * self.head_dim,
            self.state_at(batch + 1, 0) == self.state_at(batch, self.heads - 1) + self.head_dim
                * self.head_dim,
            self.spec_state_len() == self.state_at(self.batch - 1, self.heads - 1) + self.head_dim
                * self.head_dim,
            self.spec_core_len() == (self.token(
                self.batch - 1,
                self.sequence - 1,
                self.heads - 1,
            ) + 1) * self.head_dim,
    {
        let b = self.batch as int;
        let s = self.sequence as int;
        let h = self.heads as int;
        let d = self.head_dim as int;
        assert((0 * h + 0) * d * d == 0) by (nonlinear_arith);
        assert((batch * h + (head + 1)) * d * d == (batch * h + head) * d * d + d * d)
            by (nonlinear_arith);
        assert(((batch + 1) * h + 0) * d * d == (batch * h + (h - 1)) * d * d + d * d)
            by (nonlinear_arith);
        assert(b * h * d * d == ((b - 1) * h + (h - 1)) * d * d + d * d) by (nonlinear_arith);
        assert(b * s * h * d == (((b - 1) * s + (s - 1)) * h + (h - 1) + 1) * d)
            by (nonlinear_arith);
    }
}

/// Whatever is wrong with the inputs is told as a fault of the request.
pub proof fn law_faults_are_of_the_request(
    rule: GatedDeltaRule,
    contiguous: bool,
    qkv: Shape4,
    gates: Shape4,
    state: Shape4,
    devices: (Seq<char>, Seq<char>, Seq<char>),
    kinds: (Seq<char>, Seq<char>, Seq<char>),
)
    ensures
        rule_for(qkv, gates, state) matches Err(e) ==> e is InvalidInput,
        kind_problem(contiguous, devices, kinds) matches Some(e) ==> e is InvalidInput,
        rule.layout_problem(contiguous, qkv, gates, state) matches Some(e) ==> e is InvalidInput,
{
}

} // verus!
