//! What holds of every encoded block and of every block that passes
//! validation.
use crate::encoder::{data_block, encode_outcome, encoded_block, with_parities};
use crate::geometry::{lemma_reserved_side_four, lemma_side_exists, reserved_positions, side};
use crate::parity::{
    column, columns_parity, directional_parities, high_bit_lines, is_valid_block,
    lemma_xor_update, low_bit_lines, row, rows_parity, xor_all,
};
use vstd::prelude::*;

verus! {

/// Exclusive-or of four values, taken from the front.
pub open spec fn xor4(a: i32, b: i32, c: i32, d: i32) -> i32 {
    (((0 ^ a) ^ b) ^ c) ^ d
}

proof fn lemma_xor_all_four(s: Seq<i32>)
    requires
        s.len() == 4,
    ensures
        xor_all(s) == xor4(s[0], s[1], s[2], s[3]),
{
    reveal_with_fuel(xor_all, 5);
    assert(s.drop_last().drop_last().drop_last().drop_last() =~= Seq::<i32>::empty());
    assert(s.drop_last().drop_last().drop_last() =~= seq![s[0]]);
    assert(s.drop_last().drop_last() =~= seq![s[0], s[1]]);
    assert(s.drop_last() =~= seq![s[0], s[1], s[2]]);
}

proof fn lemma_xor_all_two(s: Seq<i32>)
    requires
        s.len() == 2,
    ensures
        xor_all(s) == (0 ^ s[0]) ^ s[1],
{
    reveal_with_fuel(xor_all, 3);
    assert(s.drop_last().drop_last() =~= Seq::<i32>::empty());
    assert(s.drop_last() =~= seq![s[0]]);
}

/// The directional parities of a block of 16 values, written out cell by
/// cell.
proof fn lemma_parities_side_four(b: Seq<i32>)
    requires
        b.len() == 16,
    ensures
        directional_parities(b)[0] == (0 ^ xor4(b[1], b[5], b[9], b[13])) ^ xor4(
            b[3],
            b[7],
            b[11],
            b[15],
        ),
        directional_parities(b)[1] == (0 ^ xor4(b[2], b[6], b[10], b[14])) ^ xor4(
            b[3],
            b[7],
            b[11],
            b[15],
        ),
        directional_parities(b)[2] == (0 ^ xor4(b[4], b[5], b[6], b[7])) ^ xor4(
            b[12],
            b[13],
            b[14],
            b[15],
        ),
        directional_parities(b)[3] == (0 ^ xor4(b[8], b[9], b[10], b[11])) ^ xor4(
            b[12],
            b[13],
            b[14],
            b[15],
        ),
{
    lemma_side_exists(16, 4);
    let low = low_bit_lines();
    let high = high_bit_lines();
    lemma_xor_all_four(column(b, 1, 4));
    lemma_xor_all_four(column(b, 2, 4));
    lemma_xor_all_four(column(b, 3, 4));
    lemma_xor_all_four(row(b, 1, 4));
    lemma_xor_all_four(row(b, 2, 4));
    lemma_xor_all_four(row(b, 3, 4));
    let c_low = Seq::new(2, |k: int| xor_all(column(b, low[k] as int, 4)));
    let c_high = Seq::new(2, |k: int| xor_all(column(b, high[k] as int, 4)));
    let r_low = Seq::new(2, |k: int| xor_all(row(b, low[k] as int, 4)));
    let r_high = Seq::new(2, |k: int| xor_all(row(b, high[k] as int, 4)));
    lemma_xor_all_two(c_low);
    lemma_xor_all_two(c_high);
    lemma_xor_all_two(r_low);
    lemma_xor_all_two(r_high);
    assert(c_low[0] == xor_all(column(b, 1, 4)) && c_low[1] == xor_all(column(b, 3, 4)));
    assert(c_high[0] == xor_all(column(b, 2, 4)) && c_high[1] == xor_all(column(b, 3, 4)));
    assert(r_low[0] == xor_all(row(b, 1, 4)) && r_low[1] == xor_all(row(b, 3, 4)));
    assert(r_high[0] == xor_all(row(b, 2, 4)) && r_high[1] == xor_all(row(b, 3, 4)));
    assert(columns_parity(b, low, 4) == xor_all(c_low));
    assert(columns_parity(b, high, 4) == xor_all(c_high));
    assert(rows_parity(b, low, 4) == xor_all(r_low));
    assert(rows_parity(b, high, 4) == xor_all(r_high));
}

/// A line whose first cell holds the parity of the two lines of its group
/// brings that group's parity to zero.
proof fn lemma_line_cancels(p: i32, a: i32, b: i32, c: i32, e: i32, f: i32, g: i32, h: i32)
    requires
        p == (0 ^ xor4(0, a, b, c)) ^ xor4(e, f, g, h),
    ensures
        (0 ^ xor4(p, a, b, c)) ^ xor4(e, f, g, h) == 0,
{
    assert((0 ^ ((((0 ^ p) ^ a) ^ b) ^ c)) ^ ((((0 ^ e) ^ f) ^ g) ^ h) == 0) by (bit_vector)
        requires
            p == (0 ^ ((((0i32 ^ 0i32) ^ a) ^ b) ^ c)) ^ ((((0 ^ e) ^ f) ^ g) ^ h),
    ;
}

/// Writing `v` over `old` in the first cell of a group's first line changes
/// the group's parity by `old` and `v`.
proof fn lemma_line_changes(old: i32, v: i32, a: i32, b: i32, c: i32, e: i32, f: i32, g: i32, h: i32)
    ensures
        (0 ^ xor4(v, a, b, c)) ^ xor4(e, f, g, h) == (((0 ^ xor4(old, a, b, c)) ^ xor4(
            e,
            f,
            g,
            h,
        )) ^ old) ^ v,
{
    assert((0i32 ^ ((((0i32 ^ v) ^ a) ^ b) ^ c)) ^ ((((0i32 ^ e) ^ f) ^ g) ^ h) == (((0i32 ^ ((((
    0i32 ^ old) ^ a) ^ b) ^ c)) ^ ((((0i32 ^ e) ^ f) ^ g) ^ h)) ^ old) ^ v) by (bit_vector);
}

/// The reserved positions and the directional parities line up: in a block
/// of 16 values, the `k`-th reserved position lies in the `k`-th parity group
/// and in no other, and position 0 lies in none. So a write there changes the
/// `k`-th directional parity by the old and the new value, and leaves the
/// other three as they were.
pub proof fn lemma_reserved_positions_align(b: Seq<i32>, k: int, v: i32)
    requires
        b.len() == 16,
        0 <= k < 4,
    ensures
        reserved_positions(side(b.len() as int))[k] != 0,
        forall|g: int|
            0 <= g < 4 && g != k ==> #[trigger] directional_parities(
                b.update(reserved_positions(side(b.len() as int))[k], v),
            )[g] == directional_parities(b)[g],
        directional_parities(b.update(reserved_positions(side(b.len() as int))[k], v))[k] == (
        directional_parities(b)[k] ^ b[reserved_positions(side(b.len() as int))[k]]) ^ v,
        directional_parities(b.update(0, v)) == directional_parities(b),
{
    lemma_side_exists(16, 4);
    lemma_reserved_side_four();
    let r = reserved_positions(4)[k];
    let c = b.update(r, v);
    let z = b.update(0, v);
    lemma_parities_side_four(b);
    lemma_parities_side_four(c);
    lemma_parities_side_four(z);
    assert(directional_parities(z) =~= directional_parities(b));
    if k == 0 {
        lemma_line_changes(b[1], v, b[5], b[9], b[13], b[3], b[7], b[11], b[15]);
    } else if k == 1 {
        lemma_line_changes(b[2], v, b[6], b[10], b[14], b[3], b[7], b[11], b[15]);
    } else if k == 2 {
        lemma_line_changes(b[4], v, b[5], b[6], b[7], b[12], b[13], b[14], b[15]);
    } else {
        lemma_line_changes(b[8], v, b[9], b[10], b[11], b[12], b[13], b[14], b[15]);
    }
}

/// Round trip: whenever encoding succeeds, the block it yields passes
/// validation, and its square has the side that validation asks for.
pub proof fn lemma_round_trip(bits_of_data: nat, bits_of_parity: nat, input: Seq<i32>)
    requires
        encode_outcome(bits_of_data, bits_of_parity, input) is Ok,
    ensures
        is_valid_block(encode_outcome(bits_of_data, bits_of_parity, input)->Ok_0),
        side(encode_outcome(bits_of_data, bits_of_parity, input)->Ok_0.len() as int) == 4,
{
    lemma_side_exists(16, 4);
    lemma_reserved_side_four();
    let len: int = 16;
    assert(bits_of_data + bits_of_parity == len);
    let d = data_block(input, len);
    let par = directional_parities(d);
    let slots = seq![1int, 2, 4, 8];
    let w = with_parities(d, slots, par, 4);
    let f = w.update(0, xor_all(w));
    assert(encoded_block(input, len) == f);
    assert(d.len() == 16);
    reveal_with_fuel(with_parities, 5);
    assert(w == d.update(1, par[0]).update(2, par[1]).update(4, par[2]).update(8, par[3]));
    assert(d[0] == 0 && d[1] == 0 && d[2] == 0 && d[4] == 0 && d[8] == 0);
    assert(f.len() == 16);

    lemma_parities_side_four(d);
    lemma_parities_side_four(f);
    lemma_line_cancels(f[1], d[5], d[9], d[13], d[3], d[7], d[11], d[15]);
    lemma_line_cancels(f[2], d[6], d[10], d[14], d[3], d[7], d[11], d[15]);
    lemma_line_cancels(f[4], d[5], d[6], d[7], d[12], d[13], d[14], d[15]);
    lemma_line_cancels(f[8], d[9], d[10], d[11], d[12], d[13], d[14], d[15]);

    lemma_xor_update(w, 0, xor_all(w));
    let x = xor_all(w);
    assert((x ^ 0) ^ x == 0) by (bit_vector);
}

/// A change of any one value of a block that passes validation makes it fail
/// validation.
pub proof fn lemma_single_change_detected(b: Seq<i32>, p: int, v: i32)
    requires
        is_valid_block(b),
        0 <= p < b.len(),
        v != b[p],
    ensures
        !is_valid_block(b.update(p, v)),
{
    lemma_xor_update(b, p, v);
    let a = b[p];
    assert((0 ^ a) ^ v != 0) by (bit_vector)
        requires
            a != v,
    ;
}

/// Changing the values at positions 5 and 9 of a 16-value block that passes
/// validation makes it fail validation: both lie in column 1, but only 5 lies
/// in row 1.
pub proof fn lemma_change_at_five_and_nine_detected(b: Seq<i32>, v5: i32, v9: i32)
    requires
        is_valid_block(b),
        b.len() == 16,
        v5 != b[5],
        v9 != b[9],
    ensures
        !is_valid_block(b.update(5, v5).update(9, v9)),
{
    let c = b.update(5, v5).update(9, v9);
    lemma_parities_side_four(b);
    lemma_parities_side_four(c);
    let (r4, r5, r6, r7) = (b[4], b[5], b[6], b[7]);
    let (r12, r13, r14, r15) = (b[12], b[13], b[14], b[15]);
    assert((0 ^ ((((0 ^ r4) ^ v5) ^ r6) ^ r7)) ^ ((((0 ^ r12) ^ r13) ^ r14) ^ r15) != 0)
        by (bit_vector)
        requires
            (0 ^ ((((0 ^ r4) ^ r5) ^ r6) ^ r7)) ^ ((((0 ^ r12) ^ r13) ^ r14) ^ r15) == 0,
            v5 != r5,
    ;
}


/// Flipping the bits at positions 5 and 9 of a 16-value block that passes
/// validation leaves both column parities at zero, since both positions lie
/// in column 1, and sets both row parities to one, since 5 lies in row 1 and
/// 9 in row 2.
pub proof fn lemma_flip_five_and_nine_parities(b: Seq<i32>)
    requires
        is_valid_block(b),
        b.len() == 16,
        b[5] == 0 || b[5] == 1,
        b[9] == 0 || b[9] == 1,
    ensures
        directional_parities(b.update(5, (1 - b[5]) as i32).update(9, (1 - b[9]) as i32)) =~= seq![0i32, 0, 1, 1],
{
    let c = b.update(5, (1 - b[5]) as i32).update(9, (1 - b[9]) as i32);
    lemma_parities_side_four(b);
    lemma_parities_side_four(c);
    let (x1, x5, x9, x13, x3, x7, x11, x15) = (b[1], b[5], b[9], b[13], b[3], b[7], b[11], b[15]);
    let (y5, y9) = (c[5], c[9]);
    assert((0 ^ ((((0 ^ x1) ^ y5) ^ y9) ^ x13)) ^ ((((0 ^ x3) ^ x7) ^ x11) ^ x15) == 0)
        by (bit_vector)
        requires
            (0 ^ ((((0 ^ x1) ^ x5) ^ x9) ^ x13)) ^ ((((0 ^ x3) ^ x7) ^ x11) ^ x15) == 0,
            x5 == 0 || x5 == 1,
            x9 == 0 || x9 == 1,
            y5 == 1 - x5,
            y9 == 1 - x9,
    ;
    let (x4, x6, x12, x14) = (b[4], b[6], b[12], b[14]);
    assert((0 ^ ((((0 ^ x4) ^ y5) ^ x6) ^ x7)) ^ ((((0 ^ x12) ^ x13) ^ x14) ^ x15) == 1)
        by (bit_vector)
        requires
            (0 ^ ((((0 ^ x4) ^ x5) ^ x6) ^ x7)) ^ ((((0 ^ x12) ^ x13) ^ x14) ^ x15) == 0,
            x5 == 0 || x5 == 1,
            y5 == 1 - x5,
    ;
    let (x8, x10) = (b[8], b[10]);
    assert((0 ^ ((((0 ^ x8) ^ y9) ^ x10) ^ x11)) ^ ((((0 ^ x12) ^ x13) ^ x14) ^ x15) == 1)
        by (bit_vector)
        requires
            (0 ^ ((((0 ^ x8) ^ x9) ^ x10) ^ x11)) ^ ((((0 ^ x12) ^ x13) ^ x14) ^ x15) == 0,
            x9 == 0 || x9 == 1,
            y9 == 1 - x9,
    ;
}

} // verus!
