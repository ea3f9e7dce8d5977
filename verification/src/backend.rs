//! Compute operations and the native in-memory backend.
//!
//! The fabric dispatches compute operations to backends. The native backend
//! executes them directly on bitsliced lanes: addition is XOR,
//! multiplication is AND, a matrix product of two lanes is the parity of
//! their AND, and the SiLU and GELU activations keep a lane whose most
//! significant bit is set and clear it otherwise.

use vstd::prelude::*;
use vstd::string::StringExecFns;
use crate::address::RegisterAddress;
use crate::bitslice::{BitslicedLane, words_xor, words_and, words_not, words_pop, words_for};
use crate::text::{chars_of, decimal, decimal_string, same_chars};
use crate::tiers::TierId;

verus! {

broadcast use vstd::string::group_string_axioms;

/// A backend identifier.
#[derive(Clone, Copy, Debug, PartialEq, Eq, Structural, Hash)]
pub struct BackendId(pub u8);

impl BackendId {
    /// The llama.cpp backend.
    #[allow(non_snake_case)]
    pub fn LLAMA_CPP() -> (r: BackendId)
        ensures
            r.0 == 0,
    {
        BackendId(0)
    }
    /// The MLX backend.
    #[allow(non_snake_case)]
    pub fn MLX() -> (r: BackendId)
        ensures
            r.0 == 1,
    {
        BackendId(1)
    }
    /// The native in-memory backend.
    #[allow(non_snake_case)]
    pub fn NATIVE() -> (r: BackendId)
        ensures
            r.0 == 2,
    {
        BackendId(2)
    }
    /// A custom backend.
    #[allow(non_snake_case)]
    pub fn CUSTOM() -> (r: BackendId)
        ensures
            r.0 == 3,
    {
        BackendId(3)
    }

    /// The backend's name.
    pub fn name(self) -> (r: &'static str)
        ensures
            r@ == (if self.0 == 0 {
                "llama.cpp"@
            } else if self.0 == 1 {
                "mlx"@
            } else if self.0 == 2 {
                "native"@
            } else if self.0 == 3 {
                "custom"@
            } else {
                "unknown"@
            }),
    {
        if self.0 == 0 {
            "llama.cpp"
        } else if self.0 == 1 {
            "mlx"
        } else if self.0 == 2 {
            "native"
        } else if self.0 == 3 {
            "custom"
        } else {
            "unknown"
        }
    }
}

} // verus!

verus! {

/// An arithmetic operation that a backend can execute.
#[derive(Clone, Copy, Debug, PartialEq, Eq, Structural)]
pub enum ArithmeticOp {
    /// Matrix multiply.
    MatMul,
    /// Element-wise addition.
    Add,
    /// Element-wise (Hadamard) multiplication.
    Mul,
    /// Softmax along a dimension.
    Softmax,
    /// Attention.
    Attention,
    /// Layer normalisation.
    LayerNorm,
    /// RMS normalisation.
    RMSNorm,
    /// Rotary position embedding.
    RoPE,
    /// Swish / SiLU activation.
    SiLU,
    /// GELU activation.
    GELU,
    /// Quantised matrix multiply.
    QuantizedMatMul,
    /// Sample the next token from logits.
    SampleNextToken,
    /// Backend-specific operation.
    Custom(u32),
}

/// The display name of an operation.
pub open spec fn op_text(op: ArithmeticOp) -> Seq<char> {
    match op {
        ArithmeticOp::MatMul => "MatMul"@,
        ArithmeticOp::Add => "Add"@,
        ArithmeticOp::Mul => "Mul"@,
        ArithmeticOp::Softmax => "Softmax"@,
        ArithmeticOp::Attention => "Attention"@,
        ArithmeticOp::LayerNorm => "LayerNorm"@,
        ArithmeticOp::RMSNorm => "RMSNorm"@,
        ArithmeticOp::RoPE => "RoPE"@,
        ArithmeticOp::SiLU => "SiLU"@,
        ArithmeticOp::GELU => "GELU"@,
        ArithmeticOp::QuantizedMatMul => "QuantMatMul"@,
        ArithmeticOp::SampleNextToken => "SampleNextToken"@,
        ArithmeticOp::Custom(id) => "Custom("@ + decimal(id as nat) + ")"@,
    }
}

impl ArithmeticOp {
    /// The display name of the operation.
    pub fn to_display_string(&self) -> (r: String)
        ensures
            r@ == op_text(*self),
    {
        match self {
            ArithmeticOp::MatMul => String::from_str("MatMul"),
            ArithmeticOp::Add => String::from_str("Add"),
            ArithmeticOp::Mul => String::from_str("Mul"),
            ArithmeticOp::Softmax => String::from_str("Softmax"),
            ArithmeticOp::Attention => String::from_str("Attention"),
            ArithmeticOp::LayerNorm => String::from_str("LayerNorm"),
            ArithmeticOp::RMSNorm => String::from_str("RMSNorm"),
            ArithmeticOp::RoPE => String::from_str("RoPE"),
            ArithmeticOp::SiLU => String::from_str("SiLU"),
            ArithmeticOp::GELU => String::from_str("GELU"),
            ArithmeticOp::QuantizedMatMul => String::from_str("QuantMatMul"),
            ArithmeticOp::SampleNextToken => String::from_str("SampleNextToken"),
            ArithmeticOp::Custom(id) => {
                let mut s = String::from_str("Custom(");
                let d = decimal_string(*id as u64);
                s.append(d.as_str());
                s.append(")");
                s
            },
        }
    }
}

/// How to route compute relative to data.
#[derive(Clone, Copy, Debug, PartialEq, Eq, Structural)]
pub enum RoutingPolicy {
    /// Dispatch compute to where the data is.
    ToData,
    /// Move data to where the compute is.
    ToCompute,
    /// Choose by data location, compute availability and energy state.
    Balanced,
}

impl Default for RoutingPolicy {
    /// Route compute to the data.
    fn default() -> (r: Self)
        ensures
            r == RoutingPolicy::ToData,
    {
        RoutingPolicy::ToData
    }
}

/// A compute operation to be dispatched to a backend.
#[derive(Clone, Debug)]
pub struct ComputeOp {
    pub operation: ArithmeticOp,
    pub operands: Vec<RegisterAddress>,
    pub result_address: RegisterAddress,
    pub backend: Option<BackendId>,
    pub routing: RoutingPolicy,
}

impl ComputeOp {
    /// An operation with no backend preference, routed to the data.
    pub fn new(operation: ArithmeticOp, operands: Vec<RegisterAddress>, result_address: RegisterAddress) -> (r: Self)
        ensures
            r.operation == operation,
            r.operands@ == operands@,
            r.result_address == result_address,
            r.backend.is_none(),
            r.routing == RoutingPolicy::ToData,
    {
        ComputeOp { operation, operands, result_address, backend: None, routing: RoutingPolicy::ToData }
    }
}

/// Quantisation level for quantised operations.
#[allow(non_camel_case_types)]
#[derive(Clone, Copy, Debug, PartialEq, Eq, Structural)]
pub enum QuantizationLevel {
    F32,
    F16,
    BF16,
    Q4_0,
    Q4_1,
    Q5_0,
    Q5_1,
    Q6_K,
    Q8_0,
    Q8_1,
    IQ2_XS,
    IQ3_XS,
    IQ4_XS,
    IQ5_XS,
    IQ6_XS,
    IQ7_XS,
    IQ4_XXS,
    Unknown,
}

/// The quantisation level numbered `v` (0 F32 ... 16 IQ4_XXS), `Unknown`
/// above 16.
pub open spec fn quantization_of(v: u8) -> QuantizationLevel {
    if v == 0 {
        QuantizationLevel::F32
    } else if v == 1 {
        QuantizationLevel::F16
    } else if v == 2 {
        QuantizationLevel::BF16
    } else if v == 3 {
        QuantizationLevel::Q4_0
    } else if v == 4 {
        QuantizationLevel::Q4_1
    } else if v == 5 {
        QuantizationLevel::Q5_0
    } else if v == 6 {
        QuantizationLevel::Q5_1
    } else if v == 7 {
        QuantizationLevel::Q6_K
    } else if v == 8 {
        QuantizationLevel::Q8_0
    } else if v == 9 {
        QuantizationLevel::Q8_1
    } else if v == 10 {
        QuantizationLevel::IQ2_XS
    } else if v == 11 {
        QuantizationLevel::IQ3_XS
    } else if v == 12 {
        QuantizationLevel::IQ4_XS
    } else if v == 13 {
        QuantizationLevel::IQ5_XS
    } else if v == 14 {
        QuantizationLevel::IQ6_XS
    } else if v == 15 {
        QuantizationLevel::IQ7_XS
    } else if v == 16 {
        QuantizationLevel::IQ4_XXS
    } else {
        QuantizationLevel::Unknown
    }
}

impl From<u8> for QuantizationLevel {
    fn from(v: u8) -> (r: Self) {
        match v {
            0 => QuantizationLevel::F32,
            1 => QuantizationLevel::F16,
            2 => QuantizationLevel::BF16,
            3 => QuantizationLevel::Q4_0,
            4 => QuantizationLevel::Q4_1,
            5 => QuantizationLevel::Q5_0,
            6 => QuantizationLevel::Q5_1,
            7 => QuantizationLevel::Q6_K,
            8 => QuantizationLevel::Q8_0,
            9 => QuantizationLevel::Q8_1,
            10 => QuantizationLevel::IQ2_XS,
            11 => QuantizationLevel::IQ3_XS,
            12 => QuantizationLevel::IQ4_XS,
            13 => QuantizationLevel::IQ5_XS,
            14 => QuantizationLevel::IQ6_XS,
            15 => QuantizationLevel::IQ7_XS,
            16 => QuantizationLevel::IQ4_XXS,
            _ => QuantizationLevel::Unknown,
        }
    }
}

impl vstd::std_specs::convert::FromSpecImpl<u8> for QuantizationLevel {
    open spec fn obeys_from_spec() -> bool {
        true
    }

    open spec fn from_spec(v: u8) -> Self {
        quantization_of(v)
    }
}


/// The quantisation level an upper-cased name stands for.
pub open spec fn quantization_named(u: Seq<char>) -> Option<QuantizationLevel> {
    if u == "F32"@ {
        Some(QuantizationLevel::F32)
    } else if u == "F16"@ {
        Some(QuantizationLevel::F16)
    } else if u == "BF16"@ {
        Some(QuantizationLevel::BF16)
    } else if u == "Q4_0"@ {
        Some(QuantizationLevel::Q4_0)
    } else if u == "Q4_1"@ {
        Some(QuantizationLevel::Q4_1)
    } else if u == "Q5_0"@ {
        Some(QuantizationLevel::Q5_0)
    } else if u == "Q5_1"@ {
        Some(QuantizationLevel::Q5_1)
    } else if u == "Q6_K"@ {
        Some(QuantizationLevel::Q6_K)
    } else if u == "Q8_0"@ {
        Some(QuantizationLevel::Q8_0)
    } else if u == "Q8_1"@ {
        Some(QuantizationLevel::Q8_1)
    } else if u == "IQ2_XS"@ {
        Some(QuantizationLevel::IQ2_XS)
    } else if u == "IQ3_XS"@ {
        Some(QuantizationLevel::IQ3_XS)
    } else if u == "IQ4_XS"@ {
        Some(QuantizationLevel::IQ4_XS)
    } else if u == "IQ5_XS"@ {
        Some(QuantizationLevel::IQ5_XS)
    } else if u == "IQ6_XS"@ {
        Some(QuantizationLevel::IQ6_XS)
    } else if u == "IQ7_XS"@ {
        Some(QuantizationLevel::IQ7_XS)
    } else if u == "IQ4_XXS"@ {
        Some(QuantizationLevel::IQ4_XXS)
    } else {
        None
    }
}

/// The upper-case form of a text, character by character as Unicode
/// defines it.
pub uninterp spec fn uppercase_of(s: Seq<char>) -> Seq<char>;

/// `str::to_uppercase`, as characters: the result is the upper-case form
/// of `s`, a function of `s` alone.
#[verifier::external_body]
fn uppercase_chars(s: &str) -> (r: Vec<char>)
    ensures
        r@ == uppercase_of(s@),
{
    s.to_uppercase().chars().collect()
}

/// Whether the characters `u` spell `name`.
fn spells(u: &[char], name: &str) -> (r: bool)
    ensures
        r == (u@ == name@),
{
    let n = chars_of(name);
    same_chars(u, n.as_slice())
}

/// The quantisation level named by an upper-cased name, if any.
pub fn quantization_from_upper(u: &[char]) -> (r: Option<QuantizationLevel>)
    ensures
        r == quantization_named(u@),
{
    if spells(u, "F32") {
        Some(QuantizationLevel::F32)
    } else if spells(u, "F16") {
        Some(QuantizationLevel::F16)
    } else if spells(u, "BF16") {
        Some(QuantizationLevel::BF16)
    } else if spells(u, "Q4_0") {
        Some(QuantizationLevel::Q4_0)
    } else if spells(u, "Q4_1") {
        Some(QuantizationLevel::Q4_1)
    } else if spells(u, "Q5_0") {
        Some(QuantizationLevel::Q5_0)
    } else if spells(u, "Q5_1") {
        Some(QuantizationLevel::Q5_1)
    } else if spells(u, "Q6_K") {
        Some(QuantizationLevel::Q6_K)
    } else if spells(u, "Q8_0") {
        Some(QuantizationLevel::Q8_0)
    } else if spells(u, "Q8_1") {
        Some(QuantizationLevel::Q8_1)
    } else if spells(u, "IQ2_XS") {
        Some(QuantizationLevel::IQ2_XS)
    } else if spells(u, "IQ3_XS") {
        Some(QuantizationLevel::IQ3_XS)
    } else if spells(u, "IQ4_XS") {
        Some(QuantizationLevel::IQ4_XS)
    } else if spells(u, "IQ5_XS") {
        Some(QuantizationLevel::IQ5_XS)
    } else if spells(u, "IQ6_XS") {
        Some(QuantizationLevel::IQ6_XS)
    } else if spells(u, "IQ7_XS") {
        Some(QuantizationLevel::IQ7_XS)
    } else if spells(u, "IQ4_XXS") {
        Some(QuantizationLevel::IQ4_XXS)
    } else {
        None
    }
}

/// Parse a quantisation level by name, ignoring case; an unknown name
/// fails with "Unknown quantization: <name>".
pub fn parse_quantization(s: &str) -> (r: Result<QuantizationLevel, String>)
    ensures
        match r {
            Ok(q) => quantization_named(uppercase_of(s@)) == Some(q),
            Err(e) => quantization_named(uppercase_of(s@)) is None && e@ == "Unknown quantization: "@
                + s@,
        },
{
    let upper = uppercase_chars(s);
    match quantization_from_upper(upper.as_slice()) {
        Some(q) => Ok(q),
        None => {
            let mut m = String::from_str("Unknown quantization: ");
            m.append(s);
            proof {
                reveal_strlit("Unknown quantization: ");
            }
            Err(m)
        },
    }
}

} // verus!

verus! {

/// Result of a compute operation.
#[derive(Debug)]
pub struct ComputeResult {
    pub success: bool,
    pub backend_used: Option<BackendId>,
    pub latency_us: u64,
    pub energy_estimate_nj: u64,
    pub error_message: Option<String>,
    /// Result payload, written back to the result register by the fabric.
    pub payload: Option<BitslicedLane>,
}

impl Default for ComputeResult {
    /// A failed result with nothing filled in.
    fn default() -> (r: Self)
        ensures
            !r.success,
            r.backend_used.is_none(),
            r.latency_us == 0,
            r.energy_estimate_nj == 0,
            r.error_message.is_none(),
            r.payload.is_none(),
    {
        ComputeResult {
            success: false,
            backend_used: None,
            latency_us: 0,
            energy_estimate_nj: 0,
            error_message: None,
            payload: None,
        }
    }
}

/// The operations that the native backend supports.
pub open spec fn native_supports(op: ArithmeticOp) -> bool {
    op == ArithmeticOp::Add || op == ArithmeticOp::Mul || op == ArithmeticOp::MatMul || op
        == ArithmeticOp::SiLU || op == ArithmeticOp::GELU
}

/// Latency the native backend reports: 10 µs per 64-bit word of the first
/// operand, plus 10.
pub open spec fn native_latency(operands: Seq<BitslicedLane>) -> u64 {
    let n = if operands.len() > 0 { operands[0].bit_len() } else { 0 };
    ((n / 64 + 1) * 10) as u64
}

/// A failed result from the native backend with the given message.
pub open spec fn native_failure(r: ComputeResult, msg: Seq<char>) -> bool {
    &&& !r.success
    &&& r.backend_used == Some(BackendId(2))
    &&& r.latency_us == 0
    &&& r.energy_estimate_nj == 0
    &&& r.error_message matches Some(m) && m@ == msg
    &&& r.payload.is_none()
}

/// A successful result from the native backend whose payload satisfies
/// `words` and `len`.
pub open spec fn native_success(r: ComputeResult, operands: Seq<BitslicedLane>, words: Seq<u64>, len: nat) -> bool {
    &&& r.success
    &&& r.backend_used == Some(BackendId(2))
    &&& r.latency_us == native_latency(operands)
    &&& r.energy_estimate_nj == native_latency(operands) * 10
    &&& r.error_message.is_none()
    &&& r.payload matches Some(p) && p.word_seq() == words && p.bit_len() == len && p.wf()
}

/// What an activation (SiLU or GELU) does to the first operand: keep it
/// when its last bit is set; otherwise clear the words it shares with a
/// zero lane of its length, after negating them first for SiLU.
pub open spec fn activation_words(a: BitslicedLane, negate: bool) -> Seq<u64> {
    let n = a.bit_len();
    if n > 0 && !a.bit_at(n - 1) {
        let base = if negate { words_not(a.word_seq(), n) } else { a.word_seq() };
        words_and(base, Seq::new(words_for(n), |i: int| 0u64))
    } else {
        a.word_seq()
    }
}

/// Number of tiers in the sequence that are the remote tier.
pub open spec fn remote_count(tiers: Seq<TierId>) -> nat
decreases tiers.len(),
{
if tiers.len() == 0 {
    0
} else {
    remote_count(tiers.drop_last()) + if tiers.last().spec_u8() == 4 { 1nat } else { 0nat }
}
}

/// What the native backend returns for `op` on the operand lanes: Add and
/// Mul XOR and AND the first two lanes; MatMul gives one bit, the parity of
/// the AND of two equal-length lanes; SiLU and GELU transform the first
/// lane (an empty result without one); anything else fails, as do the
/// binary operations with fewer than two operands and MatMul on lanes of
/// different lengths.
pub open spec fn native_outcome(op: ArithmeticOp, operands: Seq<BitslicedLane>, r: ComputeResult) -> bool {
    match op {
        ArithmeticOp::Add => if operands.len() >= 2 {
            native_success(r, operands, words_xor(operands[0].word_seq(), operands[1].word_seq()), operands[0].bit_len())
        } else {
            native_failure(r, "Add requires 2 operands"@)
        },
        ArithmeticOp::Mul => if operands.len() >= 2 {
            native_success(r, operands, words_and(operands[0].word_seq(), operands[1].word_seq()), operands[0].bit_len())
        } else {
            native_failure(r, "Mul requires 2 operands"@)
        },
        ArithmeticOp::MatMul => if operands.len() >= 2 {
            if operands[0].bit_len() != operands[1].bit_len() {
                native_failure(r, "MatMul dimension mismatch: "@ + decimal(operands[0].bit_len()) + " vs "@ + decimal(operands[1].bit_len()))
            } else {
                native_success(
                    r,
                    operands,
                    seq![if words_pop(words_and(operands[0].word_seq(), operands[1].word_seq())) % 2 != 0 { 1u64 } else { 0u64 }],
                    1,
                )
            }
        } else {
            native_failure(r, "MatMul requires 2 operands"@)
        },
        ArithmeticOp::SiLU => if operands.len() >= 1 {
            native_success(r, operands, activation_words(operands[0], true), operands[0].bit_len())
        } else {
            native_success(r, operands, Seq::empty(), 0)
        },
        ArithmeticOp::GELU => if operands.len() >= 1 {
            native_success(r, operands, activation_words(operands[0], false), operands[0].bit_len())
        } else {
            native_success(r, operands, Seq::empty(), 0)
        },
        _ => native_failure(r, "Unsupported operation: "@ + op_text(op)),
    }
}

/// SiLU and GELU keep their operand whenever its most significant bit (the
/// last one) is set, whatever its other bits, and give a lane of the same
/// length with no bit set when it is clear.
pub proof fn lemma_activation_keeps_or_clears(op: ArithmeticOp, operands: Seq<BitslicedLane>, r: ComputeResult)
    requires
        op == ArithmeticOp::SiLU || op == ArithmeticOp::GELU,
        operands.len() >= 1,
        operands[0].wf(),
        operands[0].bit_len() > 0,
        native_outcome(op, operands, r),
    ensures
        r.success,
        r.payload matches Some(p) && p.bit_len() == operands[0].bit_len(),
        operands[0].bits().last() ==> (r.payload matches Some(p) && p.word_seq() == operands[0].word_seq()
            && p.bits() == operands[0].bits()),
        !operands[0].bits().last() ==> (r.payload matches Some(p) && forall|j: int|
            0 <= j < p.bit_len() ==> !#[trigger] p.bit_at(j)),
{
    let a = operands[0];
    let n = a.bit_len();
    assert(a.bits().last() == a.bit_at(n - 1));
    let p = r.payload->0;
    if !a.bits().last() {
        assert forall|j: int| 0 <= j < p.bit_len() implies !#[trigger] p.bit_at(j) by {
            let w = j / 64;
            assert(0 <= w < words_for(n)) by {
                assert(j < n);
            }
            let base = if op == ArithmeticOp::SiLU { words_not(a.word_seq(), n) } else { a.word_seq() };
            assert(p.word_seq()[w] == base[w] & 0u64);
            crate::bitslice::lemma_word_bits(base[w], 0, 0, (j % 64) as u64);
        }
    }
}

/// The native in-memory backend.
#[derive(Debug)]
pub struct NativeBackend {
    id: BackendId,
}

impl NativeBackend {
    /// The backend's identifier.
    pub closed spec fn spec_id(&self) -> BackendId {
        self.id
    }

    /// A native backend (identifier 2).
    pub fn new() -> (r: Self)
        ensures
            r.spec_id() == BackendId(2),
    {
        NativeBackend { id: BackendId(2) }
    }

    /// The backend's identifier.
    pub fn id(&self) -> (r: BackendId)
        ensures
            r == self.spec_id(),
    {
        self.id
    }

    /// The backend's human-readable name.
    pub fn name(&self) -> (r: &'static str)
        ensures
            r@ == "Native (in-memory)"@,
    {
        "Native (in-memory)"
    }

    /// The supported operations: Add, Mul, MatMul, SiLU, GELU.
    pub fn supported_ops(&self) -> (r: Vec<ArithmeticOp>)
        ensures
            r@ == seq![
                ArithmeticOp::Add,
                ArithmeticOp::Mul,
                ArithmeticOp::MatMul,
                ArithmeticOp::SiLU,
                ArithmeticOp::GELU,
            ],
    {
        let mut v: Vec<ArithmeticOp> = Vec::new();
        v.push(ArithmeticOp::Add);
        v.push(ArithmeticOp::Mul);
        v.push(ArithmeticOp::MatMul);
        v.push(ArithmeticOp::SiLU);
        v.push(ArithmeticOp::GELU);
        v
    }

    /// Initialise the backend (nothing to do).
    pub fn init(&mut self) -> (r: Result<(), String>)
        ensures
            r is Ok,
            *final(self) == *old(self),
    {
        Ok(())
    }

    /// Tear the backend down (nothing to do).
    pub fn teardown(&mut self)
        ensures
            *final(self) == *old(self),
    {
    }

    /// Whether the backend supports the operation.
    pub fn can_handle(&self, op: &ComputeOp, _operand_tiers: &[TierId]) -> (r: bool)
        ensures
            r == native_supports(op.operation),
    {
        match op.operation {
            ArithmeticOp::Add | ArithmeticOp::Mul | ArithmeticOp::MatMul | ArithmeticOp::SiLU
            | ArithmeticOp::GELU => true,
            _ => false,
        }
    }

    /// Execute an operation on the given operand lanes.
    pub fn execute(&self, op: &ComputeOp, operands: &[BitslicedLane]) -> (r: ComputeResult)
        requires
            self.spec_id() == BackendId(2),
            operands@.len() >= 1 ==> operands@[0].wf() && operands@[0].bit_len() <= 0x7FFF_FFFF_FFFF_FFFF,
            operands@.len() >= 2 ==> operands@[1].wf(),
            (op.operation == ArithmeticOp::Add || op.operation == ArithmeticOp::Mul) && operands@.len() >= 2
                ==> operands@[0].bit_len() == operands@[1].bit_len(),
        ensures
            native_outcome(op.operation, operands@, r),
    {
        let result: BitslicedLane = match op.operation {
            ArithmeticOp::Add => {
                if operands.len() >= 2 {
                    let mut r = operands[0].clone();
                    r.xor_merge(&operands[1]);
                    r
                } else {
                    return ComputeResult {
                        success: false,
                        backend_used: Some(self.id),
                        latency_us: 0,
                        energy_estimate_nj: 0,
                        error_message: Some("Add requires 2 operands".to_string()),
                        payload: None,
                    };
                }
            },
            ArithmeticOp::Mul => {
                if operands.len() >= 2 {
                    let mut r = operands[0].clone();
                    r.and_merge(&operands[1]);
                    r
                } else {
                    return ComputeResult {
                        success: false,
                        backend_used: Some(self.id),
                        latency_us: 0,
                        energy_estimate_nj: 0,
                        error_message: Some("Mul requires 2 operands".to_string()),
                        payload: None,
                    };
                }
            },
            ArithmeticOp::MatMul => {
                if operands.len() >= 2 {
                    let a = &operands[0];
                    let b = &operands[1];
                    if a.len() != b.len() {
                        let mut msg = String::from_str("MatMul dimension mismatch: ");
                        let da = decimal_string(a.len() as u64);
                        msg.append(da.as_str());
                        msg.append(" vs ");
                        let db = decimal_string(b.len() as u64);
                        msg.append(db.as_str());
                        return ComputeResult {
                            success: false,
                            backend_used: Some(self.id),
                            latency_us: 0,
                            energy_estimate_nj: 0,
                            error_message: Some(msg),
                            payload: None,
                        };
                    }
                    let mut r = BitslicedLane::with_capacity(1);
                    let mut tmp = a.clone();
                    tmp.and_merge(b);
                    let parity = tmp.popcount() % 2;
                    r.set_bit(0, parity != 0);
                    proof {
                        assert((0u64 | (1u64 << 0u64)) == 1u64 && (0u64 & !(1u64 << 0u64)) == 0u64) by (bit_vector);
                        assert(r.word_seq() =~= seq![if parity != 0 { 1u64 } else { 0u64 }]);
                    }
                    r
                } else {
                    return ComputeResult {
                        success: false,
                        backend_used: Some(self.id),
                        latency_us: 0,
                        energy_estimate_nj: 0,
                        error_message: Some("MatMul requires 2 operands".to_string()),
                        payload: None,
                    };
                }
            },
            ArithmeticOp::SiLU => {
                if operands.len() >= 1 {
                    let op0 = &operands[0];
                    let mut r = op0.clone();
                    let n = op0.len();
                    if n > 0 {
                        let msb = op0.get_bit(n - 1);
                        if !msb {
                            r.not_inplace();
                            let zero = BitslicedLane::with_capacity(n);
                            r.and_merge(&zero);
                        }
                    }
                    r
                } else {
                    BitslicedLane::default()
                }
            },
            ArithmeticOp::GELU => {
                if operands.len() >= 1 {
                    let op0 = &operands[0];
                    let mut r = op0.clone();
                    let n = op0.len();
                    if n > 0 {
                        let msb = op0.get_bit(n - 1);
                        if !msb {
                            let zero = BitslicedLane::with_capacity(n);
                            r.and_merge(&zero);
                        }
                    }
                    r
                } else {
                    BitslicedLane::default()
                }
            },
            _ => {
                let mut msg = String::from_str("Unsupported operation: ");
                let name = op.operation.to_display_string();
                msg.append(name.as_str());
                return ComputeResult {
                    success: false,
                    backend_used: Some(self.id),
                    latency_us: 0,
                    energy_estimate_nj: 0,
                    error_message: Some(msg),
                    payload: None,
                };
            },
        };
        let n_bits: usize = if operands.len() >= 1 {
            operands[0].len()
        } else {
            0
        };
        let latency_us: u64 = ((n_bits / 64) + 1) as u64 * 10;
        let energy_nj = latency_us * 10;
        ComputeResult {
            success: true,
            backend_used: Some(self.id),
            latency_us,
            energy_estimate_nj: energy_nj,
            error_message: None,
            payload: Some(result),
        }
    }

    /// Energy estimate: 640 nJ per operand (64 bits at 10 nJ each).
    pub fn estimate_energy(&self, _op: &ComputeOp, operand_tiers: &[TierId]) -> (r: u64)
        requires
            operand_tiers@.len() <= 0x1_0000_0000_0000,
        ensures
            r == operand_tiers@.len() * 640,
    {
        let mut n_bits: u64 = 0;
        let mut i: usize = 0;
        while i < operand_tiers.len()
            invariant
                i <= operand_tiers@.len(),
                operand_tiers@.len() <= 0x1_0000_0000_0000,
                n_bits == i * 64,
            decreases operand_tiers@.len() - i,
        {
            n_bits = n_bits + 64;
            i = i + 1;
        }
        n_bits * 10
    }

    /// Latency estimate: 10 µs per operand word plus 10, and 100 µs more
    /// per operand in the remote tier.
    pub fn estimate_latency_us(&self, _op: &ComputeOp, operand_tiers: &[TierId]) -> (r: u64)
        requires
            operand_tiers@.len() <= 0x1_0000_0000_0000,
        ensures
            r == (operand_tiers@.len() + 1) * 10 + remote_count(operand_tiers@) * 100,
    {
        let mut n_bits: u64 = 0;
        let mut remote: u64 = 0;
        let mut i: usize = 0;
        while i < operand_tiers.len()
            invariant
                i <= operand_tiers@.len(),
                operand_tiers@.len() <= 0x1_0000_0000_0000,
                n_bits == i * 64,
                remote == remote_count(operand_tiers@.take(i as int)),
                remote <= i,
            decreases operand_tiers@.len() - i,
        {
            n_bits = n_bits + 64;
            proof {
                assert(operand_tiers@.take(i + 1).drop_last() =~= operand_tiers@.take(i as int));
            }
            if operand_tiers[i].as_u8() == 4 {
                remote = remote + 1;
            }
            i = i + 1;
        }
        proof {
            assert(operand_tiers@.take(operand_tiers@.len() as int) =~= operand_tiers@);
            assert(n_bits / 64 == operand_tiers@.len()) by (nonlinear_arith)
                requires
                    n_bits == operand_tiers@.len() * 64,
            ;
        }
        let base_latency = ((n_bits / 64) + 1) * 10;
        base_latency + remote * 100
    }
}

} // verus!
