//! What the network computes, and how its file is laid out.

use crate::board::Pos;
use crate::board::bitboard::lemma_pick_contains;
use crate::board::piece::{Color, PieceType};
use crate::board::square::Square;
use crate::eval::evaluator::nnue_score;
use crate::eval::score::tdiv;
use crate::nnue::accumulator::{
    fresh, with_feature, with_features, without_feature, FeatureWeights, Halves,
};
use crate::nnue::features::{feature_at, features_of, seen, type_features};
use crate::nnue::network::{
    at16, at32, decode, dot, encode, inputs, law_network_round_trip, layer, list16, list32, list8,
    network_output, Network, NetworkError, Parameters,
};
use vstd::prelude::*;

verus! {

/// The output is from the point of view of the side to move: exchanging the two
/// halves together with the side leaves it unchanged.
pub proof fn law_output_of_side(net: Parameters, a: Seq<i16>, b: Seq<i16>)
    ensures
        network_output(net, Halves { white: a, black: b }, Color::White) == network_output(
            net,
            Halves { white: b, black: a },
            Color::Black,
        ),
{
    assert(inputs(Halves { white: a, black: b }, Color::White) =~= inputs(
        Halves { white: b, black: a },
        Color::Black,
    ));
}

proof fn lemma_dot_alike(x: Seq<int>, y: Seq<int>, w: Seq<i8>, width: int, i: int, n: int)
    requires
        forall|m: int| 0 <= m < n ==> x[m] == y[m] || #[trigger] w[m * width + i] == 0,
    ensures
        dot(x, w, width, i, n) == dot(y, w, width, i, n),
    decreases n,
{
    if n > 0 {
        lemma_dot_alike(x, y, w, width, i, n - 1);
        let m = n - 1;
        let v = w[m * width + i] as int;
        assert(x[m] == y[m] || v == 0);
        assert(x[m] * v == y[m] * v) by (nonlinear_arith)
            requires
                x[m] == y[m] || v == 0,
        ;
    }
}

/// A network without weights for the second half of its inputs does not see the half
/// of the side that is not to move, and one without weights for the first half does
/// not see that of the side to move.
pub proof fn law_halves_apart(net: Parameters, own: Seq<i16>, x: Seq<i16>, y: Seq<i16>)
    requires
        net.wf(),
    ensures
        (forall|k: int| 16_384 <= k < 32_768 ==> #[trigger] net.l1_weight[k] == 0) ==> {
            &&& network_output(net, Halves { white: own, black: x }, Color::White)
                == network_output(net, Halves { white: own, black: y }, Color::White)
            &&& network_output(net, Halves { white: x, black: own }, Color::Black)
                == network_output(net, Halves { white: y, black: own }, Color::Black)
        },
        (forall|k: int| 0 <= k < 16_384 ==> #[trigger] net.l1_weight[k] == 0) ==> {
            &&& network_output(net, Halves { white: x, black: own }, Color::White)
                == network_output(net, Halves { white: y, black: own }, Color::White)
            &&& network_output(net, Halves { white: own, black: x }, Color::Black)
                == network_output(net, Halves { white: own, black: y }, Color::Black)
        },
{
    if forall|k: int| 16_384 <= k < 32_768 ==> #[trigger] net.l1_weight[k] == 0 {
        lemma_first_layer(
            net,
            Halves { white: own, black: x },
            Halves { white: own, black: y },
            Color::White,
        );
        lemma_first_layer(
            net,
            Halves { white: x, black: own },
            Halves { white: y, black: own },
            Color::Black,
        );
    }
    if forall|k: int| 0 <= k < 16_384 ==> #[trigger] net.l1_weight[k] == 0 {
        lemma_first_layer(
            net,
            Halves { white: x, black: own },
            Halves { white: y, black: own },
            Color::White,
        );
        lemma_first_layer(
            net,
            Halves { white: own, black: x },
            Halves { white: own, black: y },
            Color::Black,
        );
    }
}

proof fn lemma_first_layer(net: Parameters, a: Halves, b: Halves, side: Color)
    requires
        net.wf(),
        forall|m: int, i: int|
            0 <= m < 1024 && 0 <= i < 32 ==> inputs(a, side)[m] == inputs(b, side)[m]
                || #[trigger] net.l1_weight[m * 32 + i] == 0,
    ensures
        network_output(net, a, side) == network_output(net, b, side),
{
    let (x, y) = (inputs(a, side), inputs(b, side));
    assert forall|i: int| 0 <= i < 32 implies dot(x, net.l1_weight, 32, i, 1024) == dot(
        y,
        net.l1_weight,
        32,
        i,
        1024,
    ) by {
        lemma_dot_alike(x, y, net.l1_weight, 32, i, 1024);
    }
    assert(layer(x, net.l1_weight, net.l1_bias) =~= layer(y, net.l1_weight, net.l1_bias));
}

/// The number, but 0 if it is less and 127 if it is more.
pub open spec fn held(n: int) -> int {
    if n <= 0 {
        0
    } else if n >= 127 {
        127
    } else {
        n
    }
}

proof fn lemma_dot_one(x: Seq<int>, w: Seq<i8>, width: int, i: int, n: int, j: int)
    requires
        0 <= j,
        forall|m: int| 0 <= m < n && m != j ==> #[trigger] w[m * width + i] == 0,
    ensures
        dot(x, w, width, i, n) == (if j < n {
            x[j] * w[j * width + i]
        } else {
            0
        }),
    decreases n,
{
    if n > 0 {
        lemma_dot_one(x, w, width, i, n - 1, j);
        if n - 1 != j {
            assert(w[(n - 1) * width + i] == 0);
        }
    }
}

/// In a network whose only weights lead from input `j` over neuron `i` of the first
/// layer and neuron `k` of the second to the output, that input alone counts: the sum
/// of the side to move for the first 512 inputs, that of the other side for the rest.
/// It is held between 0 and 127, as is what comes out of each neuron, and every
/// weighted sum is divided by 127; the biases of the two layers are added after that,
/// that of the output before.
pub proof fn law_single_path(
    net: Parameters,
    acc: Halves,
    side: Color,
    j: int,
    i: int,
    k: int,
)
    requires
        net.wf(),
        0 <= j < 1024,
        0 <= i < 32,
        0 <= k < 32,
        forall|m: int| 0 <= m < 32_768 && m != j * 32 + i ==> #[trigger] net.l1_weight[m] == 0,
        forall|m: int| 0 <= m < 1024 && m != i * 32 + k ==> #[trigger] net.l2_weight[m] == 0,
        forall|m: int| 0 <= m < 32 && m != k ==> #[trigger] net.out_weight[m] == 0,
    ensures
        ({
            let (own, other) = if side == Color::White {
                (acc.white, acc.black)
            } else {
                (acc.black, acc.white)
            };
            let x = if j < 512 {
                own[j] as int
            } else {
                other[j - 512] as int
            };
            let one = held(tdiv(held(x) * net.l1_weight[j * 32 + i], 127) + net.l1_bias[i]);
            let two = held(tdiv(one * net.l2_weight[i * 32 + k], 127) + net.l2_bias[k]);
            network_output(net, acc, side) == tdiv(net.out_bias + two * net.out_weight[k], 127)
        }),
{
    let x = inputs(acc, side);
    let l1 = layer(x, net.l1_weight, net.l1_bias);
    let l2 = layer(l1, net.l2_weight, net.l2_bias);
    lemma_dot_one(x, net.l1_weight, 32, i, 1024, j);
    lemma_dot_one(l1, net.l2_weight, 32, k, 32, i);
    lemma_dot_one(l2, net.out_weight, 1, 0, 32, k);
}

/// The number in two bytes, the less significant one first, is a value up to a
/// multiple of 65536.
pub open spec fn pair_holds(b: Seq<u8>, o: int, v: int) -> bool {
    (b[o] + 0x100 * b[o + 1] - v) % 0x1_0000 == 0
}

/// The number in four bytes, the least significant one first, is a value up to a
/// multiple of two to the 32nd power.
pub open spec fn quad_holds(b: Seq<u8>, o: int, v: int) -> bool {
    (b[o] + 0x100 * b[o + 1] + 0x1_0000 * b[o + 2] + 0x100_0000 * b[o + 3] - v) % 0x1_0000_0000 == 0
}

/// A file begins with `CKSM`, the version 1 and the sizes 40960, 512, 32 and 32, and
/// holds the parts of the network one after the other, each at its place and with its
/// least significant bytes first.
pub proof fn law_file_layout(p: Parameters)
    requires
        p.wf(),
    ensures
        ({
            let b = encode(p);
            &&& b.len() == 41_978_172
            &&& b[0] == 67 && b[1] == 75 && b[2] == 83 && b[3] == 77
            &&& b[4] == 1 && b[5] == 0 && b[6] == 0 && b[7] == 0
            &&& b[8] == 0 && b[9] == 160 && b[10] == 0 && b[11] == 0
            &&& b[12] == 0 && b[13] == 2 && b[14] == 0 && b[15] == 0
            &&& b[16] == 32 && b[17] == 0 && b[18] == 0 && b[19] == 0
            &&& b[20] == 32 && b[21] == 0 && b[22] == 0 && b[23] == 0
            &&& forall|i: int|
                0 <= i < 512 ==> pair_holds(b, 24 + 2 * i, #[trigger] p.ft_bias[i] as int)
            &&& forall|i: int|
                0 <= i < 20_971_520 ==> pair_holds(
                    b,
                    1048 + 2 * i,
                    #[trigger] p.ft_weight[i] as int,
                )
            &&& forall|i: int|
                0 <= i < 32 ==> quad_holds(
                    b,
                    41_944_088 + 4 * i,
                    #[trigger] p.l1_bias[i] as int,
                )
            &&& forall|i: int|
                0 <= i < 32_768 ==> (b[41_944_216 + i] - #[trigger] p.l1_weight[i]) % 256 == 0
            &&& forall|i: int|
                0 <= i < 32 ==> quad_holds(
                    b,
                    41_976_984 + 4 * i,
                    #[trigger] p.l2_bias[i] as int,
                )
            &&& forall|i: int|
                0 <= i < 1024 ==> (b[41_977_112 + i] - #[trigger] p.l2_weight[i]) % 256 == 0
            &&& quad_holds(b, 41_978_136, p.out_bias as int)
            &&& forall|i: int|
                0 <= i < 32 ==> (b[41_978_140 + i] - #[trigger] p.out_weight[i]) % 256 == 0
        }),
{
    let b = encode(p);
    law_network_round_trip(p, Seq::empty());
    assert(b + Seq::<u8>::empty() =~= b);
    assert(decode(b) == Ok::<Parameters, NetworkError>(p));
    reveal(list16);
    reveal(list32);
    reveal(list8);
    assert forall|i: int| 0 <= i < 512 implies pair_holds(
        b,
        24 + 2 * i,
        #[trigger] p.ft_bias[i] as int,
    ) by {
        assert(list16(b, 24, 512)[i] == p.ft_bias[i]);
        lemma_pair(b, 24 + 2 * i);
    }
    assert forall|i: int| 0 <= i < 20_971_520 implies pair_holds(
        b,
        1048 + 2 * i,
        #[trigger] p.ft_weight[i] as int,
    ) by {
        assert(list16(b, 1048, 20_971_520)[i] == p.ft_weight[i]);
        lemma_pair(b, 1048 + 2 * i);
    }
    assert forall|i: int| 0 <= i < 32 implies quad_holds(
        b,
        41_944_088 + 4 * i,
        #[trigger] p.l1_bias[i] as int,
    ) by {
        assert(list32(b, 41_944_088, 32)[i] == p.l1_bias[i]);
        lemma_quad(b, 41_944_088 + 4 * i);
    }
    assert forall|i: int| 0 <= i < 32_768 implies (b[41_944_216 + i] - #[trigger] p.l1_weight[i]) % 256
        == 0 by {
        assert(list8(b, 41_944_216, 32_768)[i] == p.l1_weight[i]);
    }
    assert forall|i: int| 0 <= i < 32 implies quad_holds(
        b,
        41_976_984 + 4 * i,
        #[trigger] p.l2_bias[i] as int,
    ) by {
        assert(list32(b, 41_976_984, 32)[i] == p.l2_bias[i]);
        lemma_quad(b, 41_976_984 + 4 * i);
    }
    assert forall|i: int| 0 <= i < 1024 implies (b[41_977_112 + i] - #[trigger] p.l2_weight[i]) % 256
        == 0 by {
        assert(list8(b, 41_977_112, 1024)[i] == p.l2_weight[i]);
    }
    lemma_quad(b, 41_978_136);
    assert forall|i: int| 0 <= i < 32 implies (b[41_978_140 + i] - #[trigger] p.out_weight[i]) % 256
        == 0 by {
        assert(list8(b, 41_978_140, 32)[i] == p.out_weight[i]);
    }
}

proof fn lemma_pair(b: Seq<u8>, o: int)
    ensures
        pair_holds(b, o, crate::nnue::network::signed(at16(b, o), 65536)),
{
}

proof fn lemma_quad(b: Seq<u8>, o: int)
    ensures
        quad_holds(b, o, crate::nnue::network::signed(at32(b, o), 0x1_0000_0000)),
{
}

/// The number of a feature: 640 for each square of the king, among them 128 for each
/// kind of piece from pawn to queen, and 64 for the pieces of the king's own side
/// before those of the other.
pub proof fn law_feature_of_a_piece(p: Pos, i: int)
    requires
        p.king(Color::White) is Some,
        p.king(Color::Black) is Some,
        p.occupied(i),
        !p.typed(PieceType::King, i),
    ensures
        ({
            let pc = p.at(i)->0;
            let kind = match pc.piece_type {
                PieceType::Pawn => 0int,
                PieceType::Knight => 128,
                PieceType::Bishop => 256,
                PieceType::Rook => 384,
                _ => 512,
            };
            let k = (p.king(Color::White)->0).0 as int;
            let l = (p.king(Color::Black)->0).0 as int;
            &&& features_of(p, Color::White).contains(
                (640 * k + kind + (if pc.color == Color::White {
                    0int
                } else {
                    64
                }) + i) as usize,
            )
            &&& features_of(p, Color::Black).contains(
                (640 * (8 * (7 - l / 8) + l % 8) + kind + (if pc.color == Color::Black {
                    0int
                } else {
                    64
                }) + (8 * (7 - i / 8) + i % 8)) as usize,
            )
        }),
{
    let pc = p.at(i)->0;
    lemma_feature_in(p, Color::White, i);
    lemma_feature_in(p, Color::Black, i);
}

proof fn lemma_in_sum(a: Seq<usize>, b: Seq<usize>, x: usize)
    ensures
        a.contains(x) || b.contains(x) ==> (a + b).contains(x),
{
    if a.contains(x) {
        let n = choose|n: int| 0 <= n < a.len() && a[n] == x;
        assert((a + b)[n] == x);
    } else if b.contains(x) {
        let n = choose|n: int| 0 <= n < b.len() && b[n] == x;
        assert((a + b)[a.len() + n] == x);
    }
}

proof fn lemma_feature_in(p: Pos, side: Color, i: int)
    requires
        p.king(Color::White) is Some,
        p.king(Color::Black) is Some,
        p.occupied(i),
        !p.typed(PieceType::King, i),
    ensures
        ({
            let pc = p.at(i)->0;
            let k = seen(side, (p.king(side)->0).0 as int);
            features_of(p, side).contains(
                feature_at(side, k, pc.color, pc.piece_type)(Square(i as u8)),
            )
        }),
{
    let pc = p.at(i)->0;
    let k = seen(side, (p.king(side)->0).0 as int);
    let f = feature_at(side, k, pc.color, pc.piece_type);
    let x = f(Square(i as u8));
    let q = |s: int| p.holds(pc.color, pc.piece_type, s);
    assert(q(i));
    lemma_pick_contains(q, 0, i);
    let s = p.pieces(pc.color, pc.piece_type);
    let n = choose|n: int| 0 <= n < s.len() && s[n] == Square(i as u8);
    assert(s.map_values(f)[n] == x);
    lemma_in_sum(
        p.pieces(Color::White, pc.piece_type).map_values(
            feature_at(side, k, Color::White, pc.piece_type),
        ),
        p.pieces(Color::Black, pc.piece_type).map_values(
            feature_at(side, k, Color::Black, pc.piece_type),
        ),
        x,
    );
    let a = type_features(p, side, k, PieceType::Pawn);
    let b = type_features(p, side, k, PieceType::Knight);
    let c = type_features(p, side, k, PieceType::Bishop);
    let d = type_features(p, side, k, PieceType::Rook);
    let e = type_features(p, side, k, PieceType::Queen);
    lemma_in_sum(a, b, x);
    lemma_in_sum(a + b, c, x);
    lemma_in_sum(a + b + c, d, x);
    lemma_in_sum(a + b + c + d, e, x);
}

/// Bytes are refused as no network when they do not begin with `CKSM`; then for a version
/// other than 1, with the version; then for other layer sizes, with the sizes; and a file
/// that ends too early is refused as cut off.
pub proof fn law_refused_files(b: Seq<u8>)
    ensures
        b.len() < 4 ==> decode(b) == Err::<Parameters, NetworkError>(NetworkError::Truncated(0)),
        b.len() >= 4 && !(b[0] == 67 && b[1] == 75 && b[2] == 83 && b[3] == 77) ==> decode(b) == Err::<
            Parameters,
            NetworkError,
        >(NetworkError::NotANetwork),
        decode(b) matches Err(NetworkError::Version(v)) ==> v == b[4] + 0x100 * b[5] + 0x1_0000
            * b[6] + 0x100_0000 * b[7] && v != 1,
        decode(b) matches Err(NetworkError::Architecture(w, x, y, z)) ==> {
            &&& w == b[8] + 0x100 * b[9] + 0x1_0000 * b[10] + 0x100_0000 * b[11]
            &&& x == b[12] + 0x100 * b[13] + 0x1_0000 * b[14] + 0x100_0000 * b[15]
            &&& y == b[16] + 0x100 * b[17] + 0x1_0000 * b[18] + 0x100_0000 * b[19]
            &&& z == b[20] + 0x100 * b[21] + 0x1_0000 * b[22] + 0x100_0000 * b[23]
            &&& w != 40960 || x != 512 || y != 32 || z != 32
        },
        decode(b) is Ok ==> b.len() >= 41_978_172,
{
}

/// A feature that is added to the sums of the first layer adds its weights, each within the
/// range of 16 bits; one that is taken away takes them off.
pub proof fn law_feature_weights(v: Seq<i16>, w: FeatureWeights, f: int, i: int)
    requires
        0 <= i < 512,
    ensures
        ({
            let (a, x) = (v[i] as int, w.weight@[512 * f + i] as int);
            let (up, down) = (with_feature(v, w, f)[i] as int, without_feature(v, w, f)[i] as int);
            &&& -32768 <= a + x <= 32767 ==> up == a + x
            &&& a + x > 32767 ==> up == 32767
            &&& a + x < -32768 ==> up == -32768
            &&& -32768 <= a - x <= 32767 ==> down == a - x
            &&& a - x > 32767 ==> down == 32767
            &&& a - x < -32768 ==> down == -32768
        }),
{
}

/// The sums of a position start from the biases, and each half adds the features of its own
/// king.
pub proof fn law_sums_of_a_position(p: Pos, w: FeatureWeights)
    ensures
        features_of(p, Color::White).len() == 0 ==> fresh(p, w).white == w.bias@,
        features_of(p, Color::Black).len() == 0 ==> fresh(p, w).black == w.bias@,
        features_of(p, Color::White).len() > 0 ==> fresh(p, w).white == with_feature(
            with_features(
                w.bias@,
                w,
                features_of(p, Color::White),
                features_of(p, Color::White).len() - 1,
            ),
            w,
            features_of(p, Color::White).last() as int,
        ),
        features_of(p, Color::Black).len() > 0 ==> fresh(p, w).black == with_feature(
            with_features(
                w.bias@,
                w,
                features_of(p, Color::Black),
                features_of(p, Color::Black).len() - 1,
            ),
            w,
            features_of(p, Color::Black).last() as int,
        ),
{
}

/// Weighted sums add up: that of the sums of two lists of inputs is the sum of theirs.
pub proof fn law_weighted_sums(
    x: Seq<int>,
    y: Seq<int>,
    z: Seq<int>,
    w: Seq<i8>,
    width: int,
    i: int,
    n: int,
)
    requires
        forall|j: int| 0 <= j < n ==> #[trigger] z[j] == x[j] + y[j],
    ensures
        dot(z, w, width, i, n) == dot(x, w, width, i, n) + dot(y, w, width, i, n),
    decreases n,
{
    if n > 0 {
        law_weighted_sums(x, y, z, w, width, i, n - 1);
        let (a, b, c) = (x[n - 1], y[n - 1], w[(n - 1) * width + i] as int);
        assert((a + b) * c == a * c + b * c) by (nonlinear_arith);
    }
}

/// The score of a position by a network is its output on the sums of the position, those of the
/// side to move first.
pub proof fn law_score_by_network(net: Network, p: Pos)
    ensures
        ({
            let sums = fresh(p, net.feature_weights);
            let (own, other) = if p.side == Color::White {
                (sums.white, sums.black)
            } else {
                (sums.black, sums.white)
            };
            nnue_score(net, p) == network_output(
                net@,
                Halves { white: own, black: other },
                Color::White,
            )
        }),
{
    let sums = fresh(p, net.feature_weights);
    law_output_of_side(net@, sums.black, sums.white);
}

} // verus!
