//! The network: quantized inference, and its file format.
//!
//! A file holds, with all numbers in little-endian order: the four bytes
//! `CKSM`, the version, the four layer sizes, then the biases and weights of
//! the layers one after the other.

use crate::board::Color;
use crate::eval::score::tdiv;
use crate::nnue::accumulator::{Accumulator, FeatureWeights, Halves};
use crate::text::{digits, number_chars, string_of};
use vstd::prelude::*;

verus! {

/// The first bytes of a file.
pub const MAGIC: [u8; 4] = [67, 75, 83, 77];

/// The version of the file format.
pub const VERSION: u32 = 1;

/// A fully-loaded network ready for inference.
pub struct Network {
    pub feature_weights: FeatureWeights,
    /// L1 layer biases (`L1_SIZE` values).
    pub l1_bias: Vec<i32>,
    /// L1 layer weights (`HIDDEN_SIZE * 2` rows of `L1_SIZE`).
    pub l1_weight: Vec<i8>,
    /// L2 layer biases (`L2_SIZE` values).
    pub l2_bias: Vec<i32>,
    /// L2 layer weights (`L1_SIZE` rows of `L2_SIZE`).
    pub l2_weight: Vec<i8>,
    /// Output layer bias.
    pub out_bias: i32,
    /// Output layer weights (`L2_SIZE` values).
    pub out_weight: Vec<i8>,
}

/// The parameters of a network.
pub struct Parameters {
    pub ft_bias: Seq<i16>,
    pub ft_weight: Seq<i16>,
    pub l1_bias: Seq<i32>,
    pub l1_weight: Seq<i8>,
    pub l2_bias: Seq<i32>,
    pub l2_weight: Seq<i8>,
    pub out_bias: i32,
    pub out_weight: Seq<i8>,
}

impl Parameters {
    /// The lists have the right lengths.
    pub open spec fn wf(self) -> bool {
        &&& self.ft_bias.len() == 512
        &&& self.ft_weight.len() == 20_971_520
        &&& self.l1_bias.len() == 32
        &&& self.l1_weight.len() == 32_768
        &&& self.l2_bias.len() == 32
        &&& self.l2_weight.len() == 1024
        &&& self.out_weight.len() == 32
    }
}

impl View for Network {
    type V = Parameters;

    open spec fn view(&self) -> Parameters {
        Parameters {
            ft_bias: self.feature_weights.bias@,
            ft_weight: self.feature_weights.weight@,
            l1_bias: self.l1_bias@,
            l1_weight: self.l1_weight@,
            l2_bias: self.l2_bias@,
            l2_weight: self.l2_weight@,
            out_bias: self.out_bias,
            out_weight: self.out_weight@,
        }
    }
}

/// The number held between 0 and 127.
pub open spec fn crelu(n: int) -> int {
    if n < 0 {
        0
    } else if n > 127 {
        127
    } else {
        n
    }
}

/// The inputs of the second layer: the sums for the side to move, then those
/// for the other side, each held between 0 and 127.
pub open spec fn inputs(acc: Halves, side: Color) -> Seq<int> {
    let (stm, other) = match side {
        Color::White => (acc.white, acc.black),
        Color::Black => (acc.black, acc.white),
    };
    Seq::new(
        1024,
        |j: int|
            if j < 512 {
                crelu(stm[j] as int)
            } else {
                crelu(other[j - 512] as int)
            },
    )
}

/// The sum of the first `n` inputs times their weights for neuron `i`.
pub open spec fn dot(input: Seq<int>, w: Seq<i8>, width: int, i: int, n: int) -> int
    decreases n,
{
    if n <= 0 {
        0
    } else {
        dot(input, w, width, i, n - 1) + input[n - 1] * w[(n - 1) * width + i]
    }
}

/// The outputs of a layer: the weighted sums scaled down by 127, with the bias,
/// held between 0 and 127.
pub open spec fn layer(input: Seq<int>, w: Seq<i8>, bias: Seq<i32>) -> Seq<int> {
    Seq::new(
        32,
        |i: int| crelu(tdiv(dot(input, w, 32, i, input.len() as int), 127) + bias[i]),
    )
}

/// The output of the network in centipawns, for the side to move.
pub open spec fn network_output(net: Parameters, acc: Halves, side: Color) -> int {
    let l1 = layer(inputs(acc, side), net.l1_weight, net.l1_bias);
    let l2 = layer(l1, net.l2_weight, net.l2_bias);
    tdiv(net.out_bias + dot(l2, net.out_weight, 1, 0, 32), 127)
}

proof fn lemma_dot_bound(input: Seq<int>, w: Seq<i8>, width: int, i: int, n: int)
    requires
        0 <= n <= input.len(),
        forall|j: int| 0 <= j < input.len() ==> 0 <= #[trigger] input[j] <= 127,
    ensures
        -16_256 * n <= dot(input, w, width, i, n) <= 16_256 * n,
    decreases n,
{
    if n > 0 {
        lemma_dot_bound(input, w, width, i, n - 1);
        let a = input[n - 1];
        let b = w[(n - 1) * width + i] as int;
        assert(-16_256 <= a * b <= 16_256) by (nonlinear_arith)
            requires
                0 <= a <= 127,
                -128 <= b <= 127,
        ;
    }
}

/// The number held between 0 and 127.
fn clamp_activation(n: i64) -> (r: i32)
    ensures
        r == crelu(n as int),
        0 <= r <= 127,
{
    if n < 0 {
        0
    } else if n > 127 {
        127
    } else {
        n as i32
    }
}

/// Division that rounds toward zero.
fn div_scale(a: i64) -> (r: i64)
    requires
        a > i64::MIN,
    ensures
        r == tdiv(a as int, 127),
{
    if a >= 0 {
        a / 127
    } else {
        -((-a) / 127)
    }
}

/// The activations as integers.
pub open spec fn activations(v: Seq<i32>) -> Seq<int> {
    v.map_values(|x: i32| x as int)
}

/// The weighted sum for one neuron.
fn neuron_sum(input: &Vec<i32>, w: &Vec<i8>, width: usize, i: usize) -> (r: i64)
    requires
        i < width <= 32,
        input@.len() <= 1024,
        w@.len() == input@.len() * width,
        forall|j: int| 0 <= j < input@.len() ==> 0 <= #[trigger] input@[j] <= 127,
    ensures
        r == dot(activations(input@), w@, width as int, i as int, input@.len() as int),
        -16_256 * 1024 <= r <= 16_256 * 1024,
{
    let ghost a = activations(input@);
    let mut sum: i64 = 0;
    let mut j: usize = 0;
    while j < input.len()
        invariant
            j <= input@.len() <= 1024,
            i < width <= 32,
            w@.len() == input@.len() * width,
            a == activations(input@),
            forall|k: int| 0 <= k < input@.len() ==> 0 <= #[trigger] input@[k] <= 127,
            sum == dot(a, w@, width as int, i as int, j as int),
        decreases input@.len() - j,
    {
        proof {
            assert forall|k: int| 0 <= k < a.len() implies 0 <= #[trigger] a[k] <= 127 by {
                assert(a[k] == input@[k]);
            }
            lemma_dot_bound(a, w@, width as int, i as int, j as int);
            assert(j * width + i < w@.len()) by (nonlinear_arith)
                requires
                    j < input@.len(),
                    i < width,
                    w@.len() == input@.len() * width,
            ;
            assert(0 <= j * width <= 1024 * 32) by (nonlinear_arith)
                requires
                    0 <= j < 1024,
                    0 <= width <= 32,
            ;
        }
        let x: i64 = input[j] as i64;
        let y: i64 = w[j * width + i] as i64;
        proof {
            assert(-16_256 <= x * y <= 16_256) by (nonlinear_arith)
                requires
                    0 <= x <= 127,
                    -128 <= y <= 127,
            ;
            assert(a[j as int] == x);
        }
        sum = sum + x * y;
        j += 1;
    }
    proof {
        assert forall|k: int| 0 <= k < a.len() implies 0 <= #[trigger] a[k] <= 127 by {
            assert(a[k] == input@[k]);
        }
        lemma_dot_bound(a, w@, width as int, i as int, input@.len() as int);
    }
    sum
}

/// The outputs of a layer.
fn run_layer(input: &Vec<i32>, w: &Vec<i8>, bias: &Vec<i32>) -> (r: Vec<i32>)
    requires
        input@.len() <= 1024,
        w@.len() == input@.len() * 32,
        bias@.len() == 32,
        forall|j: int| 0 <= j < input@.len() ==> 0 <= #[trigger] input@[j] <= 127,
    ensures
        r@.len() == 32,
        activations(r@) == layer(activations(input@), w@, bias@),
        forall|j: int| 0 <= j < 32 ==> 0 <= #[trigger] r@[j] <= 127,
{
    let ghost a = activations(input@);
    let mut out: Vec<i32> = Vec::new();
    let mut i: usize = 0;
    while i < 32
        invariant
            i <= 32,
            input@.len() <= 1024,
            w@.len() == input@.len() * 32,
            bias@.len() == 32,
            a == activations(input@),
            a.len() == input@.len(),
            forall|j: int| 0 <= j < input@.len() ==> 0 <= #[trigger] input@[j] <= 127,
            out@.len() == i,
            forall|k: int| 0 <= k < i ==> 0 <= #[trigger] out@[k] <= 127,
            forall|k: int| 0 <= k < i ==> #[trigger] out@[k] == layer(a, w@, bias@)[k],
        decreases 32 - i,
    {
        let sum: i64 = neuron_sum(input, w, 32, i);
        let v: i32 = clamp_activation(div_scale(sum) + bias[i] as i64);
        out.push(v);
        i += 1;
    }
    proof {
        assert(activations(out@) =~= layer(a, w@, bias@));
    }
    out
}

/// Append the values of one half, each held between 0 and 127.
fn push_activations(out: &mut Vec<i32>, values: &Vec<i16>)
    requires
        values@.len() == 512,
        old(out)@.len() <= 512,
        forall|j: int| 0 <= j < old(out)@.len() ==> 0 <= #[trigger] old(out)@[j] <= 127,
    ensures
        final(out)@.len() == old(out)@.len() + 512,
        forall|j: int| 0 <= j < old(out)@.len() ==> final(out)@[j] == old(out)@[j],
        forall|j: int| 0 <= j < 512 ==> #[trigger] final(out)@[old(out)@.len() + j] == crelu(
            values@[j] as int,
        ),
        forall|j: int| 0 <= j < final(out)@.len() ==> 0 <= #[trigger] final(out)@[j] <= 127,
{
    let ghost start = out@;
    let mut j: usize = 0;
    while j < 512
        invariant
            j <= 512,
            values@.len() == 512,
            out@.len() == start.len() + j,
            forall|k: int| 0 <= k < start.len() ==> out@[k] == start[k],
            forall|k: int| 0 <= k < j ==> #[trigger] out@[start.len() + k] == crelu(
                values@[k] as int,
            ),
            forall|k: int| 0 <= k < out@.len() ==> 0 <= #[trigger] out@[k] <= 127,
        decreases 512 - j,
    {
        out.push(clamp_activation(values[j] as i64));
        j += 1;
    }
}

impl Network {
    /// The lists have the right lengths.
    pub open spec fn wf(&self) -> bool {
        self@.wf()
    }

    /// Create a network with all weights and biases set to zero.
    pub fn zeros() -> (r: Network)
        ensures
            r.wf(),
            forall|i: int| 0 <= i < r@.ft_bias.len() ==> r@.ft_bias[i] == 0,
            forall|i: int| 0 <= i < r@.ft_weight.len() ==> r@.ft_weight[i] == 0,
            forall|i: int| 0 <= i < r@.l1_bias.len() ==> r@.l1_bias[i] == 0,
            forall|i: int| 0 <= i < r@.l1_weight.len() ==> r@.l1_weight[i] == 0,
            forall|i: int| 0 <= i < r@.l2_bias.len() ==> r@.l2_bias[i] == 0,
            forall|i: int| 0 <= i < r@.l2_weight.len() ==> r@.l2_weight[i] == 0,
            r@.out_bias == 0,
            forall|i: int| 0 <= i < r@.out_weight.len() ==> r@.out_weight[i] == 0,
    {
        Network {
            feature_weights: FeatureWeights::zeros(),
            l1_bias: vec![0i32; 32],
            l1_weight: vec![0i8; 32_768],
            l2_bias: vec![0i32; 32],
            l2_weight: vec![0i8; 1024],
            out_bias: 0,
            out_weight: vec![0i8; 32],
        }
    }

    /// Run quantized inference from the given accumulator.
    ///
    /// Returns an estimate in centipawns from `side_to_move`'s perspective
    /// (positive = the side to move stands better).
    pub fn evaluate(&self, acc: &Accumulator, side_to_move: Color) -> (r: i32)
        requires
            self.wf(),
            acc.wf(),
        ensures
            r == network_output(self@, acc@, side_to_move),
            -17_100_000 <= r <= 17_100_000,
    {
        let mut input: Vec<i32> = Vec::new();
        match side_to_move {
            Color::White => {
                push_activations(&mut input, &acc.white.values);
                push_activations(&mut input, &acc.black.values);
            },
            Color::Black => {
                push_activations(&mut input, &acc.black.values);
                push_activations(&mut input, &acc.white.values);
            },
        }
        proof {
            assert forall|j: int| 0 <= j < 1024 implies #[trigger] activations(input@)[j] == inputs(
                acc@,
                side_to_move,
            )[j] by {
                if j >= 512 {
                    assert(input@[512 + (j - 512)] == inputs(acc@, side_to_move)[j]);
                } else {
                    assert(input@[0 + j] == inputs(acc@, side_to_move)[j]);
                }
            }
            assert(activations(input@) =~= inputs(acc@, side_to_move));
        }
        let l1 = run_layer(&input, &self.l1_weight, &self.l1_bias);
        let l2 = run_layer(&l1, &self.l2_weight, &self.l2_bias);
        let sum: i64 = neuron_sum(&l2, &self.out_weight, 1, 0);
        div_scale(self.out_bias as i64 + sum) as i32
    }
}

proof fn lemma_dot_zero(input: Seq<int>, w: Seq<i8>, width: int, i: int, n: int)
    requires
        0 <= i < width,
        0 <= n <= input.len(),
        w.len() == input.len() * width,
        forall|j: int| 0 <= j < w.len() ==> w[j] == 0,
    ensures
        dot(input, w, width, i, n) == 0,
    decreases n,
{
    if n > 0 {
        lemma_dot_zero(input, w, width, i, n - 1);
        let k = (n - 1) * width + i;
        assert(0 <= k < w.len()) by (nonlinear_arith)
            requires
                0 <= i < width,
                1 <= n <= input.len(),
                w.len() == input.len() * width,
                k == (n - 1) * width + i,
        ;
        assert(input[n - 1] * w[k] == 0) by (nonlinear_arith)
            requires
                w[k] == 0,
        ;
    }
}

/// A network whose output layer is zero gives 0 for every position.
pub proof fn law_zero_output(net: Parameters, acc: Halves, side: Color)
    requires
        net.wf(),
        net.out_bias == 0,
        forall|i: int| 0 <= i < net.out_weight.len() ==> net.out_weight[i] == 0,
    ensures
        network_output(net, acc, side) == 0,
{
    let l1 = layer(inputs(acc, side), net.l1_weight, net.l1_bias);
    let l2 = layer(l1, net.l2_weight, net.l2_bias);
    lemma_dot_zero(l2, net.out_weight, 1, 0, 32);
}

// ---------------------------------------------------------------------------
// File format
// ---------------------------------------------------------------------------

/// The number that a signed value of `m` states is stored as.
pub open spec fn unsigned(v: int, m: int) -> int {
    if v < 0 {
        v + m
    } else {
        v
    }
}

/// The signed value that a stored number stands for.
pub open spec fn signed(n: int, m: int) -> int {
    if n >= m / 2 {
        n - m
    } else {
        n
    }
}

/// The two bytes of a number.
pub open spec fn le16(n: int) -> Seq<u8> {
    seq![(n % 256) as u8, (n / 256 % 256) as u8]
}

/// The four bytes of a number.
pub open spec fn le32(n: int) -> Seq<u8> {
    seq![
        (n % 256) as u8,
        (n / 256 % 256) as u8,
        (n / 65536 % 256) as u8,
        (n / 16777216 % 256) as u8,
    ]
}

/// The number in the two bytes at `o`.
pub open spec fn at16(b: Seq<u8>, o: int) -> int {
    b[o] + 256 * b[o + 1]
}

/// The number in the four bytes at `o`.
pub open spec fn at32(b: Seq<u8>, o: int) -> int {
    b[o] + 256 * b[o + 1] + 65536 * b[o + 2] + 16777216 * b[o + 3]
}

/// The `n` 16-bit values from `o` on.
#[verifier::opaque]
pub open spec fn list16(b: Seq<u8>, o: int, n: int) -> Seq<i16> {
    Seq::new(n as nat, |i: int| signed(at16(b, o + 2 * i), 65536) as i16)
}

/// The `n` 32-bit values from `o` on.
#[verifier::opaque]
pub open spec fn list32(b: Seq<u8>, o: int, n: int) -> Seq<i32> {
    Seq::new(n as nat, |i: int| signed(at32(b, o + 4 * i), 0x1_0000_0000) as i32)
}

/// The `n` 8-bit values from `o` on.
#[verifier::opaque]
pub open spec fn list8(b: Seq<u8>, o: int, n: int) -> Seq<i8> {
    Seq::new(n as nat, |i: int| signed(b[o + i] as int, 256) as i8)
}

/// The bytes of 16-bit values.
#[verifier::opaque]
pub open spec fn bytes16(v: Seq<i16>) -> Seq<u8> {
    Seq::new(
        2 * v.len(),
        |k: int| le16(unsigned(v[k / 2] as int, 65536))[k % 2],
    )
}

/// The bytes of 32-bit values.
#[verifier::opaque]
pub open spec fn bytes32(v: Seq<i32>) -> Seq<u8> {
    Seq::new(
        4 * v.len(),
        |k: int| le32(unsigned(v[k / 4] as int, 0x1_0000_0000))[k % 4],
    )
}

/// The bytes of 8-bit values.
#[verifier::opaque]
pub open spec fn bytes8(v: Seq<i8>) -> Seq<u8> {
    v.map_values(|x: i8| unsigned(x as int, 256) as u8)
}

/// Where each part of a file begins, and where the last one ends.
pub const FT_BIAS_AT: usize = 24;

pub const FT_WEIGHT_AT: usize = 1048;

pub const L1_BIAS_AT: usize = 41_944_088;

pub const L1_WEIGHT_AT: usize = 41_944_216;

pub const L2_BIAS_AT: usize = 41_976_984;

pub const L2_WEIGHT_AT: usize = 41_977_112;

pub const OUT_BIAS_AT: usize = 41_978_136;

pub const OUT_WEIGHT_AT: usize = 41_978_140;

pub const FILE_LEN: usize = 41_978_172;

/// Why the bytes of a file are not a network.
#[derive(Debug, PartialEq, Eq, Clone, Copy)]
pub enum NetworkError {
    /// The file ends before the part that begins at this byte is complete.
    Truncated(usize),
    /// The file does not begin with the magic bytes.
    NotANetwork,
    /// The version is not the supported one.
    Version(u32),
    /// The layer sizes differ.
    Architecture(u32, u32, u32, u32),
}

/// The position of the first part that does not fit into `n` bytes.
pub open spec fn cut_at(n: int) -> int {
    if n < FT_WEIGHT_AT {
        FT_BIAS_AT as int
    } else if n < L1_BIAS_AT {
        FT_WEIGHT_AT as int
    } else if n < L1_WEIGHT_AT {
        L1_BIAS_AT as int
    } else if n < L2_BIAS_AT {
        L1_WEIGHT_AT as int
    } else if n < L2_WEIGHT_AT {
        L2_BIAS_AT as int
    } else if n < OUT_BIAS_AT {
        L2_WEIGHT_AT as int
    } else if n < OUT_WEIGHT_AT {
        OUT_BIAS_AT as int
    } else {
        OUT_WEIGHT_AT as int
    }
}

/// What the header of a file says: nothing wrong, or an error.
pub open spec fn header_error(b: Seq<u8>) -> Option<NetworkError> {
    if b.len() < 4 {
        Some(NetworkError::Truncated(0))
    } else if !(b[0] == 67 && b[1] == 75 && b[2] == 83 && b[3] == 77) {
        Some(NetworkError::NotANetwork)
    } else if b.len() < 8 {
        Some(NetworkError::Truncated(4))
    } else if at32(b, 4) != 1 {
        Some(NetworkError::Version(at32(b, 4) as u32))
    } else if b.len() < 12 {
        Some(NetworkError::Truncated(8))
    } else if b.len() < 16 {
        Some(NetworkError::Truncated(12))
    } else if b.len() < 20 {
        Some(NetworkError::Truncated(16))
    } else if b.len() < 24 {
        Some(NetworkError::Truncated(20))
    } else if !(at32(b, 8) == 40960 && at32(b, 12) == 512 && at32(b, 16) == 32 && at32(b, 20)
        == 32) {
        Some(
            NetworkError::Architecture(
                at32(b, 8) as u32,
                at32(b, 12) as u32,
                at32(b, 16) as u32,
                at32(b, 20) as u32,
            ),
        )
    } else {
        None
    }
}

/// The network in the bytes of a file, or what is wrong with them.
pub open spec fn decode(b: Seq<u8>) -> Result<Parameters, NetworkError> {
    match header_error(b) {
        Some(e) => Err(e),
        None => if b.len() < FILE_LEN {
            Err(NetworkError::Truncated(cut_at(b.len() as int) as usize))
        } else {
            Ok(
                Parameters {
                    ft_bias: list16(b, FT_BIAS_AT as int, 512),
                    ft_weight: list16(b, FT_WEIGHT_AT as int, 20_971_520),
                    l1_bias: list32(b, L1_BIAS_AT as int, 32),
                    l1_weight: list8(b, L1_WEIGHT_AT as int, 32_768),
                    l2_bias: list32(b, L2_BIAS_AT as int, 32),
                    l2_weight: list8(b, L2_WEIGHT_AT as int, 1024),
                    out_bias: signed(at32(b, OUT_BIAS_AT as int), 0x1_0000_0000) as i32,
                    out_weight: list8(b, OUT_WEIGHT_AT as int, 32),
                },
            )
        },
    }
}

/// The header of a file.
pub open spec fn header() -> Seq<u8> {
    seq![67u8, 75u8, 83u8, 77u8] + le32(1) + le32(40960) + le32(512) + le32(32) + le32(32)
}

/// The bytes of a file.
pub open spec fn encode(p: Parameters) -> Seq<u8> {
    header() + bytes16(p.ft_bias) + bytes16(p.ft_weight) + bytes32(p.l1_bias) + bytes8(p.l1_weight)
        + bytes32(p.l2_bias) + bytes8(p.l2_weight) + le32(
        unsigned(p.out_bias as int, 0x1_0000_0000),
    ) + bytes8(p.out_weight)
}

proof fn lemma_signed16(x: int)
    requires
        -32768 <= x < 32768,
    ensures
        0 <= unsigned(x, 65536) < 65536,
        signed(unsigned(x, 65536), 65536) == x,
{
}

proof fn lemma_bytes16(v: Seq<i16>, i: int)
    requires
        0 <= i < v.len(),
    ensures
        bytes16(v)[2 * i] == le16(unsigned(v[i] as int, 65536))[0],
        bytes16(v)[2 * i + 1] == le16(unsigned(v[i] as int, 65536))[1],
{
    reveal(bytes16);
    assert((2 * i) / 2 == i && (2 * i) % 2 == 0);
    assert((2 * i + 1) / 2 == i && (2 * i + 1) % 2 == 1);
}

proof fn lemma_at16(b: Seq<u8>, o: int, n: int)
    requires
        0 <= n < 65536,
        b[o] == le16(n)[0],
        b[o + 1] == le16(n)[1],
    ensures
        at16(b, o) == n,
{
}

proof fn lemma_one16(b: Seq<u8>, o: int, v: Seq<i16>, i: int)
    requires
        0 <= i < v.len(),
        b[o + 2 * i] == bytes16(v)[2 * i],
        b[o + 2 * i + 1] == bytes16(v)[2 * i + 1],
    ensures
        signed(at16(b, o + 2 * i), 65536) == v[i],
{
    lemma_bytes16(v, i);
    lemma_signed16(v[i] as int);
    lemma_at16(b, o + 2 * i, unsigned(v[i] as int, 65536));
}

proof fn lemma_list16(pre: Seq<u8>, v: Seq<i16>, post: Seq<u8>)
    ensures
        list16(pre + bytes16(v) + post, pre.len() as int, v.len() as int) == v,
{
    reveal(list16);
    reveal(bytes16);
    let b = pre + bytes16(v) + post;
    let o = pre.len() as int;
    let r = list16(b, o, v.len() as int);
    assert forall|i: int| 0 <= i < v.len() implies r[i] == v[i] by {
        lemma_one16(b, o, v, i);
    }
    assert(r =~= v);
}

proof fn lemma_at32(b: Seq<u8>, o: int, n: int)
    requires
        0 <= n < 0x1_0000_0000,
        b[o] == le32(n)[0],
        b[o + 1] == le32(n)[1],
        b[o + 2] == le32(n)[2],
        b[o + 3] == le32(n)[3],
    ensures
        at32(b, o) == n,
{
}

proof fn lemma_signed32(x: int)
    requires
        -0x8000_0000 <= x < 0x8000_0000,
    ensures
        0 <= unsigned(x, 0x1_0000_0000) < 0x1_0000_0000,
        signed(unsigned(x, 0x1_0000_0000), 0x1_0000_0000) == x,
{
}

proof fn lemma_bytes32(v: Seq<i32>, i: int)
    requires
        0 <= i < v.len(),
    ensures
        bytes32(v)[4 * i] == le32(unsigned(v[i] as int, 0x1_0000_0000))[0],
        bytes32(v)[4 * i + 1] == le32(unsigned(v[i] as int, 0x1_0000_0000))[1],
        bytes32(v)[4 * i + 2] == le32(unsigned(v[i] as int, 0x1_0000_0000))[2],
        bytes32(v)[4 * i + 3] == le32(unsigned(v[i] as int, 0x1_0000_0000))[3],
{
    reveal(bytes32);
    assert((4 * i) / 4 == i && (4 * i) % 4 == 0);
    assert((4 * i + 1) / 4 == i && (4 * i + 1) % 4 == 1);
    assert((4 * i + 2) / 4 == i && (4 * i + 2) % 4 == 2);
    assert((4 * i + 3) / 4 == i && (4 * i + 3) % 4 == 3);
}

proof fn lemma_one32(b: Seq<u8>, o: int, v: Seq<i32>, i: int)
    requires
        0 <= i < v.len(),
        b[o + 4 * i] == bytes32(v)[4 * i],
        b[o + 4 * i + 1] == bytes32(v)[4 * i + 1],
        b[o + 4 * i + 2] == bytes32(v)[4 * i + 2],
        b[o + 4 * i + 3] == bytes32(v)[4 * i + 3],
    ensures
        signed(at32(b, o + 4 * i), 0x1_0000_0000) == v[i],
{
    lemma_bytes32(v, i);
    lemma_signed32(v[i] as int);
    lemma_at32(b, o + 4 * i, unsigned(v[i] as int, 0x1_0000_0000));
}

proof fn lemma_list32(pre: Seq<u8>, v: Seq<i32>, post: Seq<u8>)
    ensures
        list32(pre + bytes32(v) + post, pre.len() as int, v.len() as int) == v,
{
    reveal(list32);
    reveal(bytes32);
    let b = pre + bytes32(v) + post;
    let o = pre.len() as int;
    let r = list32(b, o, v.len() as int);
    assert forall|i: int| 0 <= i < v.len() implies r[i] == v[i] by {
        lemma_one32(b, o, v, i);
    }
    assert(r =~= v);
}

proof fn lemma_list8(pre: Seq<u8>, v: Seq<i8>, post: Seq<u8>)
    ensures
        list8(pre + bytes8(v) + post, pre.len() as int, v.len() as int) == v,
{
    reveal(list8);
    reveal(bytes8);
    let b = pre + bytes8(v) + post;
    let o = pre.len() as int;
    let r = list8(b, o, v.len() as int);
    assert forall|i: int| 0 <= i < v.len() implies r[i] == v[i] by {
        assert(b[o + i] == bytes8(v)[i]);
    }
    assert(r =~= v);
}

proof fn lemma_assoc(
    h: Seq<u8>,
    a1: Seq<u8>,
    a2: Seq<u8>,
    a3: Seq<u8>,
    a4: Seq<u8>,
    a5: Seq<u8>,
    a6: Seq<u8>,
    a7: Seq<u8>,
    a8: Seq<u8>,
    t: Seq<u8>,
)
    ensures
        ({
            let b = h + a1 + a2 + a3 + a4 + a5 + a6 + a7 + a8 + t;
            let r7 = a8 + t;
            let r6 = a7 + r7;
            let r5 = a6 + r6;
            let r4 = a5 + r5;
            let r3 = a4 + r4;
            let r2 = a3 + r3;
            let r1 = a2 + r2;
            &&& b == h + a1 + r1
            &&& b == (h + a1) + a2 + r2
            &&& b == (h + a1 + a2) + a3 + r3
            &&& b == (h + a1 + a2 + a3) + a4 + r4
            &&& b == (h + a1 + a2 + a3 + a4) + a5 + r5
            &&& b == (h + a1 + a2 + a3 + a4 + a5) + a6 + r6
            &&& b == (h + a1 + a2 + a3 + a4 + a5 + a6) + a7 + r7
        }),
{
    let b = h + a1 + a2 + a3 + a4 + a5 + a6 + a7 + a8 + t;
    let r7 = a8 + t;
    let r6 = a7 + r7;
    let r5 = a6 + r6;
    let r4 = a5 + r5;
    let r3 = a4 + r4;
    let r2 = a3 + r3;
    let r1 = a2 + r2;
    assert(b =~= (h + a1 + a2 + a3 + a4 + a5 + a6) + a7 + r7);
    assert(b =~= (h + a1 + a2 + a3 + a4 + a5) + a6 + r6);
    assert(b =~= (h + a1 + a2 + a3 + a4) + a5 + r5);
    assert(b =~= (h + a1 + a2 + a3) + a4 + r4);
    assert(b =~= (h + a1 + a2) + a3 + r3);
    assert(b =~= (h + a1) + a2 + r2);
    assert(b =~= h + a1 + r1);
}

proof fn lemma_header(rest: Seq<u8>)
    ensures
        header().len() == 24,
        header_error(header() + rest) is None,
{
    let b = header() + rest;
    let h = header();
    assert(h[0] == 67u8 && h[1] == 75u8 && h[2] == 83u8 && h[3] == 77u8);
    lemma_at32(b, 4, 1);
    lemma_at32(b, 8, 40960);
    lemma_at32(b, 12, 512);
    lemma_at32(b, 16, 32);
    lemma_at32(b, 20, 32);
}

proof fn lemma_number_in(pre: Seq<u8>, n: int, post: Seq<u8>)
    requires
        0 <= n < 0x1_0000_0000,
    ensures
        at32(pre + le32(n) + post, pre.len() as int) == n,
{
    let b = pre + le32(n) + post;
    let o = pre.len() as int;
    assert(b[o] == le32(n)[0] && b[o + 1] == le32(n)[1] && b[o + 2] == le32(n)[2] && b[o + 3]
        == le32(n)[3]);
    lemma_at32(b, o, n);
}

/// Where the parts end up when they are written one after the other.
proof fn lemma_part_lengths(p: Parameters)
    requires
        p.wf(),
    ensures
        header().len() == FT_BIAS_AT,
        bytes16(p.ft_bias).len() == FT_WEIGHT_AT - FT_BIAS_AT,
        bytes16(p.ft_weight).len() == L1_BIAS_AT - FT_WEIGHT_AT,
        bytes32(p.l1_bias).len() == L1_WEIGHT_AT - L1_BIAS_AT,
        bytes8(p.l1_weight).len() == L2_BIAS_AT - L1_WEIGHT_AT,
        bytes32(p.l2_bias).len() == L2_WEIGHT_AT - L2_BIAS_AT,
        bytes8(p.l2_weight).len() == OUT_BIAS_AT - L2_WEIGHT_AT,
        bytes8(p.out_weight).len() == FILE_LEN - OUT_WEIGHT_AT,
{
    reveal(bytes16);
    reveal(bytes32);
    reveal(bytes8);
}

/// The parts of the written bytes, read at their places.
proof fn lemma_read_parts(
    h: Seq<u8>,
    p: Parameters,
    a1: Seq<u8>,
    a2: Seq<u8>,
    a3: Seq<u8>,
    a4: Seq<u8>,
    a5: Seq<u8>,
    a6: Seq<u8>,
    n: int,
    a8: Seq<u8>,
    tail: Seq<u8>,
)
    requires
        0 <= n < 0x1_0000_0000,
        a1 == bytes16(p.ft_bias),
        a2 == bytes16(p.ft_weight),
        a3 == bytes32(p.l1_bias),
        a4 == bytes8(p.l1_weight),
        a5 == bytes32(p.l2_bias),
        a6 == bytes8(p.l2_weight),
        a8 == bytes8(p.out_weight),
    ensures
        ({
            let b = h + a1 + a2 + a3 + a4 + a5 + a6 + le32(n) + a8 + tail;
            let o1 = h.len() as int;
            let o2 = o1 + a1.len();
            let o3 = o2 + a2.len();
            let o4 = o3 + a3.len();
            let o5 = o4 + a4.len();
            let o6 = o5 + a5.len();
            let o7 = o6 + a6.len();
            &&& list16(b, o1, p.ft_bias.len() as int) == p.ft_bias
            &&& list16(b, o2, p.ft_weight.len() as int) == p.ft_weight
            &&& list32(b, o3, p.l1_bias.len() as int) == p.l1_bias
            &&& list8(b, o4, p.l1_weight.len() as int) == p.l1_weight
            &&& list32(b, o5, p.l2_bias.len() as int) == p.l2_bias
            &&& list8(b, o6, p.l2_weight.len() as int) == p.l2_weight
            &&& at32(b, o7) == n
            &&& list8(b, o7 + 4, p.out_weight.len() as int) == p.out_weight
        }),
{
    let a7 = le32(n);
    lemma_assoc(h, a1, a2, a3, a4, a5, a6, a7, a8, tail);
    let r7 = a8 + tail;
    let r6 = a7 + r7;
    let r5 = a6 + r6;
    let r4 = a5 + r5;
    let r3 = a4 + r4;
    let r2 = a3 + r3;
    let r1 = a2 + r2;
    lemma_list16(h, p.ft_bias, r1);
    lemma_list16(h + a1, p.ft_weight, r2);
    lemma_list32(h + a1 + a2, p.l1_bias, r3);
    lemma_list8(h + a1 + a2 + a3, p.l1_weight, r4);
    lemma_list32(h + a1 + a2 + a3 + a4, p.l2_bias, r5);
    lemma_list8(h + a1 + a2 + a3 + a4 + a5, p.l2_weight, r6);
    lemma_number_in(h + a1 + a2 + a3 + a4 + a5 + a6, n, r7);
    lemma_list8(h + a1 + a2 + a3 + a4 + a5 + a6 + a7, p.out_weight, tail);
}

/// Reading back the bytes that a network is written as gives the network,
/// whatever follows them.
pub proof fn law_network_round_trip(p: Parameters, tail: Seq<u8>)
    requires
        p.wf(),
    ensures
        decode(encode(p) + tail) == Ok::<Parameters, NetworkError>(p),
        encode(p).len() == FILE_LEN,
{
    let b = encode(p) + tail;
    let n = unsigned(p.out_bias as int, 0x1_0000_0000);
    lemma_signed32(p.out_bias as int);
    lemma_part_lengths(p);
    lemma_read_parts(
        header(),
        p,
        bytes16(p.ft_bias),
        bytes16(p.ft_weight),
        bytes32(p.l1_bias),
        bytes8(p.l1_weight),
        bytes32(p.l2_bias),
        bytes8(p.l2_weight),
        n,
        bytes8(p.out_weight),
        tail,
    );
    assert(b =~= header() + b.skip(24));
    lemma_header(b.skip(24));
}

/// The number in the four bytes at `o`.
fn read_u32(b: &[u8], o: usize) -> (r: u32)
    requires
        o + 4 <= b@.len(),
    ensures
        r == at32(b@, o as int),
{
    b[o] as u32 + 256 * (b[o + 1] as u32) + 65536 * (b[o + 2] as u32) + 16777216 * (b[o
        + 3] as u32)
}

fn read_i32(b: &[u8], o: usize) -> (r: i32)
    requires
        o + 4 <= b@.len(),
    ensures
        r == signed(at32(b@, o as int), 0x1_0000_0000),
{
    let n: u32 = read_u32(b, o);
    if n >= 0x8000_0000 {
        (n as i64 - 0x1_0000_0000) as i32
    } else {
        n as i32
    }
}

fn read_list16(b: &[u8], o: usize, n: usize) -> (r: Vec<i16>)
    requires
        o + 2 * n <= b@.len(),
        o <= 50_000_000,
        n <= 30_000_000,
    ensures
        r@ == list16(b@, o as int, n as int),
        r@.len() == n,
{
    proof {
        reveal(list16);
    }
    let mut out: Vec<i16> = Vec::with_capacity(n);
    let mut i: usize = 0;
    while i < n
        invariant
            o <= 50_000_000,
            i <= n <= 30_000_000,
            o + 2 * n <= b@.len(),
            out@.len() == i,
            forall|k: int| 0 <= k < i ==> #[trigger] out@[k] == list16(b@, o as int, n as int)[k],
        decreases n - i,
    {
        proof {
            reveal(list16);
        }
        let v: i32 = b[o + 2 * i] as i32 + 256 * (b[o + 2 * i + 1] as i32);
        out.push(
            if v >= 32768 {
                (v - 65536) as i16
            } else {
                v as i16
            },
        );
        i += 1;
    }
    proof {
        assert(out@ =~= list16(b@, o as int, n as int));
    }
    out
}

fn read_list32(b: &[u8], o: usize, n: usize) -> (r: Vec<i32>)
    requires
        o + 4 * n <= b@.len(),
        o <= 50_000_000,
        n <= 30_000_000,
    ensures
        r@ == list32(b@, o as int, n as int),
        r@.len() == n,
{
    proof {
        reveal(list32);
    }
    let mut out: Vec<i32> = Vec::with_capacity(n);
    let mut i: usize = 0;
    while i < n
        invariant
            o <= 50_000_000,
            i <= n <= 30_000_000,
            o + 4 * n <= b@.len(),
            out@.len() == i,
            forall|k: int| 0 <= k < i ==> #[trigger] out@[k] == list32(b@, o as int, n as int)[k],
        decreases n - i,
    {
        proof {
            reveal(list32);
        }
        out.push(read_i32(b, o + 4 * i));
        i += 1;
    }
    proof {
        assert(out@ =~= list32(b@, o as int, n as int));
    }
    out
}

fn read_list8(b: &[u8], o: usize, n: usize) -> (r: Vec<i8>)
    requires
        o + n <= b@.len(),
        o <= 50_000_000,
        n <= 30_000_000,
    ensures
        r@ == list8(b@, o as int, n as int),
        r@.len() == n,
{
    proof {
        reveal(list8);
    }
    let mut out: Vec<i8> = Vec::with_capacity(n);
    let mut i: usize = 0;
    while i < n
        invariant
            o <= 50_000_000,
            i <= n <= 30_000_000,
            o + n <= b@.len(),
            out@.len() == i,
            forall|k: int| 0 <= k < i ==> #[trigger] out@[k] == list8(b@, o as int, n as int)[k],
        decreases n - i,
    {
        proof {
            reveal(list8);
        }
        let v: i32 = b[o + i] as i32;
        out.push(
            if v >= 128 {
                (v - 256) as i8
            } else {
                v as i8
            },
        );
        i += 1;
    }
    proof {
        assert(out@ =~= list8(b@, o as int, n as int));
    }
    out
}

fn write_u32(out: &mut Vec<u8>, n: u32)
    ensures
        final(out)@ == old(out)@ + le32(n as int),
{
    let ghost start = out@;
    out.push((n % 256) as u8);
    out.push((n / 256 % 256) as u8);
    out.push((n / 65536 % 256) as u8);
    out.push((n / 16777216 % 256) as u8);
    proof {
        assert(out@ =~= start + le32(n as int));
    }
}

fn write_i32(out: &mut Vec<u8>, v: i32)
    ensures
        final(out)@ == old(out)@ + le32(unsigned(v as int, 0x1_0000_0000)),
{
    let n: u32 = if v < 0 {
        (v as i64 + 0x1_0000_0000) as u32
    } else {
        v as u32
    };
    write_u32(out, n);
}

fn write_list16(out: &mut Vec<u8>, v: &Vec<i16>)
    ensures
        final(out)@ == old(out)@ + bytes16(v@),
{
    proof {
        reveal(bytes16);
    }
    let ghost start = out@;
    let mut i: usize = 0;
    while i < v.len()
        invariant
            i <= v@.len(),
            out@.len() == start.len() + 2 * i,
            forall|k: int| 0 <= k < start.len() ==> out@[k] == start[k],
            forall|k: int| 0 <= k < 2 * i ==> #[trigger] out@[start.len() + k] == bytes16(v@)[k],
        decreases v@.len() - i,
    {
        proof {
            reveal(bytes16);
        }
        let ghost mid = out@;
        let n: i32 = if v[i] < 0 {
            v[i] as i32 + 65536
        } else {
            v[i] as i32
        };
        out.push((n % 256) as u8);
        out.push((n / 256 % 256) as u8);
        proof {
            assert forall|k: int| 0 <= k < 2 * (i + 1) implies #[trigger] out@[start.len() + k]
                == bytes16(v@)[k] by {
                if k < 2 * i {
                    assert(mid[start.len() + k] == bytes16(v@)[k]);
                } else if k == 2 * i {
                    assert(k / 2 == i && k % 2 == 0);
                } else {
                    assert(k / 2 == i && k % 2 == 1);
                }
            }
        }
        i += 1;
    }
    proof {
        assert forall|k: int| 0 <= k < out@.len() implies out@[k] == (start + bytes16(v@))[k] by {
            if k >= start.len() {
                assert(out@[start.len() + (k - start.len())] == bytes16(v@)[k - start.len()]);
            }
        }
        assert(out@ =~= start + bytes16(v@));
    }
}

fn write_list32(out: &mut Vec<u8>, v: &Vec<i32>)
    ensures
        final(out)@ == old(out)@ + bytes32(v@),
{
    proof {
        reveal(bytes32);
    }
    let ghost start = out@;
    let mut i: usize = 0;
    while i < v.len()
        invariant
            i <= v@.len(),
            out@.len() == start.len() + 4 * i,
            forall|k: int| 0 <= k < start.len() ==> out@[k] == start[k],
            forall|k: int| 0 <= k < 4 * i ==> #[trigger] out@[start.len() + k] == bytes32(v@)[k],
        decreases v@.len() - i,
    {
        proof {
            reveal(bytes32);
        }
        let ghost mid = out@;
        write_i32(out, v[i]);
        proof {
            assert forall|k: int| 0 <= k < 4 * (i + 1) implies #[trigger] out@[start.len() + k]
                == bytes32(v@)[k] by {
                if k < 4 * i {
                    assert(mid[start.len() + k] == bytes32(v@)[k]);
                } else {
                    assert(k / 4 == i && k % 4 == k - 4 * i);
                }
            }
        }
        i += 1;
    }
    proof {
        assert forall|k: int| 0 <= k < out@.len() implies out@[k] == (start + bytes32(v@))[k] by {
            if k >= start.len() {
                assert(out@[start.len() + (k - start.len())] == bytes32(v@)[k - start.len()]);
            }
        }
        assert(out@ =~= start + bytes32(v@));
    }
}

fn write_list8(out: &mut Vec<u8>, v: &Vec<i8>)
    ensures
        final(out)@ == old(out)@ + bytes8(v@),
{
    proof {
        reveal(bytes8);
    }
    let ghost start = out@;
    let mut i: usize = 0;
    while i < v.len()
        invariant
            i <= v@.len(),
            out@ == start + bytes8(v@.take(i as int)),
        decreases v@.len() - i,
    {
        proof {
            reveal(bytes8);
        }
        let n: i32 = if v[i] < 0 {
            v[i] as i32 + 256
        } else {
            v[i] as i32
        };
        out.push(n as u8);
        proof {
            assert(bytes8(v@.take(i + 1)) =~= bytes8(v@.take(i as int)).push(n as u8));
            assert(out@ =~= start + bytes8(v@.take(i + 1)));
        }
        i += 1;
    }
    proof {
        assert(v@.take(i as int) =~= v@);
    }
}

/// What is wrong with the header of a file.
fn check_header(b: &[u8]) -> (r: Option<NetworkError>)
    ensures
        r == header_error(b@),
{
    let n: usize = b.len();
    if n < 4 {
        return Some(NetworkError::Truncated(0));
    }
    if !(b[0] == MAGIC[0] && b[1] == MAGIC[1] && b[2] == MAGIC[2] && b[3] == MAGIC[3]) {
        return Some(NetworkError::NotANetwork);
    }
    if n < 8 {
        return Some(NetworkError::Truncated(4));
    }
    let version: u32 = read_u32(b, 4);
    if version != VERSION {
        return Some(NetworkError::Version(version));
    }
    if n < 12 {
        return Some(NetworkError::Truncated(8));
    }
    if n < 16 {
        return Some(NetworkError::Truncated(12));
    }
    if n < 20 {
        return Some(NetworkError::Truncated(16));
    }
    if n < 24 {
        return Some(NetworkError::Truncated(20));
    }
    let i: u32 = read_u32(b, 8);
    let h: u32 = read_u32(b, 12);
    let l1: u32 = read_u32(b, 16);
    let l2: u32 = read_u32(b, 20);
    if i != 40960 || h != 512 || l1 != 32 || l2 != 32 {
        return Some(NetworkError::Architecture(i, h, l1, l2));
    }
    None
}

fn cut_position(n: usize) -> (r: usize)
    ensures
        r == cut_at(n as int),
{
    if n < FT_WEIGHT_AT {
        FT_BIAS_AT
    } else if n < L1_BIAS_AT {
        FT_WEIGHT_AT
    } else if n < L1_WEIGHT_AT {
        L1_BIAS_AT
    } else if n < L2_BIAS_AT {
        L1_WEIGHT_AT
    } else if n < L2_WEIGHT_AT {
        L2_BIAS_AT
    } else if n < OUT_BIAS_AT {
        L2_WEIGHT_AT
    } else if n < OUT_WEIGHT_AT {
        OUT_BIAS_AT
    } else {
        OUT_WEIGHT_AT
    }
}

impl Network {
    /// Read a network from the bytes of a file.
    pub fn from_bytes(b: &[u8]) -> (r: Result<Network, NetworkError>)
        ensures
            match decode(b@) {
                Ok(p) => r is Ok && r->Ok_0@ == p && r->Ok_0.wf(),
                Err(e) => r is Err && r->Err_0 == e,
            },
    {
        if let Some(e) = check_header(b) {
            return Err(e);
        }
        if b.len() < FILE_LEN {
            return Err(NetworkError::Truncated(cut_position(b.len())));
        }
        Ok(
            Network {
                feature_weights: FeatureWeights {
                    bias: read_list16(b, FT_BIAS_AT, 512),
                    weight: read_list16(b, FT_WEIGHT_AT, 20_971_520),
                },
                l1_bias: read_list32(b, L1_BIAS_AT, 32),
                l1_weight: read_list8(b, L1_WEIGHT_AT, 32_768),
                l2_bias: read_list32(b, L2_BIAS_AT, 32),
                l2_weight: read_list8(b, L2_WEIGHT_AT, 1024),
                out_bias: read_i32(b, OUT_BIAS_AT),
                out_weight: read_list8(b, OUT_WEIGHT_AT, 32),
            },
        )
    }

    /// The bytes of the file that holds this network.
    pub fn to_bytes(&self) -> (r: Vec<u8>)
        ensures
            r@ == encode(self@),
    {
        let mut out: Vec<u8> = Vec::new();
        out.push(MAGIC[0]);
        out.push(MAGIC[1]);
        out.push(MAGIC[2]);
        out.push(MAGIC[3]);
        write_u32(&mut out, VERSION);
        write_u32(&mut out, 40960);
        write_u32(&mut out, 512);
        write_u32(&mut out, 32);
        write_u32(&mut out, 32);
        proof {
            assert(out@ =~= header());
        }
        write_list16(&mut out, &self.feature_weights.bias);
        write_list16(&mut out, &self.feature_weights.weight);
        write_list32(&mut out, &self.l1_bias);
        write_list8(&mut out, &self.l1_weight);
        write_list32(&mut out, &self.l2_bias);
        write_list8(&mut out, &self.l2_weight);
        write_i32(&mut out, self.out_bias);
        write_list8(&mut out, &self.out_weight);
        out
    }
}

/// The error as a sentence.
pub open spec fn network_error_text(e: NetworkError) -> Seq<char> {
    match e {
        NetworkError::Truncated(n) => "NNUE file truncated at byte "@ + digits(n as int),
        NetworkError::NotANetwork => "not a Checksmith .nnue file"@,
        NetworkError::Version(v) => "unsupported .nnue version "@ + digits(v as int)
            + " (expected 1)"@,
        NetworkError::Architecture(a, b, c, d) => "architecture mismatch: file=("@ + digits(
            a as int,
        ) + ","@ + digits(b as int) + ","@ + digits(c as int) + ","@ + digits(d as int)
            + ") compiled=(40960,512,32,32)"@,
    }
}

impl NetworkError {
    /// The error as a sentence.
    pub fn message(&self) -> (r: String)
        ensures
            r@ == network_error_text(*self),
    {
        let mut s = String::new();
        match self {
            NetworkError::Truncated(n) => {
                s.append("NNUE file truncated at byte ");
                s.append(string_of(&number_chars(*n as u64)).as_str());
            },
            NetworkError::NotANetwork => {
                s.append("not a Checksmith .nnue file");
            },
            NetworkError::Version(v) => {
                s.append("unsupported .nnue version ");
                s.append(string_of(&number_chars(*v as u64)).as_str());
                s.append(" (expected 1)");
            },
            NetworkError::Architecture(a, b, c, d) => {
                s.append("architecture mismatch: file=(");
                s.append(string_of(&number_chars(*a as u64)).as_str());
                s.append(",");
                s.append(string_of(&number_chars(*b as u64)).as_str());
                s.append(",");
                s.append(string_of(&number_chars(*c as u64)).as_str());
                s.append(",");
                s.append(string_of(&number_chars(*d as u64)).as_str());
                s.append(") compiled=(40960,512,32,32)");
            },
        }
        proof {
            assert(s@ =~= network_error_text(*self));
        }
        s
    }
}

} // verus!
