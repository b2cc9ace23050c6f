//! The parity relations of a block: exclusive-or reductions over the whole
//! block and over groups of rows or columns of its square layout.
use crate::geometry::side;
use vstd::prelude::*;

verus! {

/// Exclusive-or of every value of `s`, taken from the front.
pub open spec fn xor_all(s: Seq<i32>) -> i32
    decreases s.len(),
{
    if s.len() == 0 {
        0
    } else {
        xor_all(s.drop_last()) ^ s.last()
    }
}

/// Column `c` of the square of side `h` laid over `b` row by row.
pub open spec fn column(b: Seq<i32>, c: int, h: int) -> Seq<i32> {
    Seq::new(h as nat, |j: int| b[c + j * h])
}

/// Row `r` of the square of side `h` laid over `b` row by row.
pub open spec fn row(b: Seq<i32>, r: int, h: int) -> Seq<i32> {
    Seq::new(h as nat, |j: int| b[r * h + j])
}

/// Exclusive-or of every value in the listed columns.
pub open spec fn columns_parity(b: Seq<i32>, cols: Seq<usize>, h: int) -> i32 {
    xor_all(Seq::new(cols.len(), |k: int| xor_all(column(b, cols[k] as int, h))))
}

/// Exclusive-or of every value in the listed rows.
pub open spec fn rows_parity(b: Seq<i32>, rows: Seq<usize>, h: int) -> i32 {
    xor_all(Seq::new(rows.len(), |k: int| xor_all(row(b, rows[k] as int, h))))
}

/// The lines (rows or columns) whose index has its lowest bit set.
pub open spec fn low_bit_lines() -> Seq<usize> {
    seq![1, 3]
}

/// The lines (rows or columns) whose index has its second bit set.
pub open spec fn high_bit_lines() -> Seq<usize> {
    seq![2, 3]
}

/// The four directional parities of a block, in the order in which they fill
/// the reserved positions: low-bit columns, high-bit columns, low-bit rows,
/// high-bit rows.
pub open spec fn directional_parities(b: Seq<i32>) -> Seq<i32> {
    let h = side(b.len() as int);
    seq![
        columns_parity(b, low_bit_lines(), h),
        columns_parity(b, high_bit_lines(), h),
        rows_parity(b, low_bit_lines(), h),
        rows_parity(b, high_bit_lines(), h),
    ]
}

/// A block passes validation: its four directional parities and its overall
/// parity are all zero.
pub open spec fn is_valid_block(b: Seq<i32>) -> bool {
    let p = directional_parities(b);
    &&& p[0] == 0
    &&& p[1] == 0
    &&& p[2] == 0
    &&& p[3] == 0
    &&& xor_all(b) == 0
}

pub proof fn lemma_xor_assoc(a: i32, b: i32, c: i32)
    ensures
        (a ^ b) ^ c == a ^ (b ^ c),
{
    assert((a ^ b) ^ c == a ^ (b ^ c)) by (bit_vector);
}

pub proof fn lemma_xor_zero(a: i32)
    ensures
        a ^ 0 == a,
        0 ^ a == a,
{
    assert(a ^ 0 == a && 0 ^ a == a) by (bit_vector);
}

/// Extending a prefix by one value extends its reduction by that value.
pub proof fn lemma_xor_take_step(s: Seq<i32>, j: int)
    requires
        0 <= j < s.len(),
    ensures
        xor_all(s.take(j + 1)) == xor_all(s.take(j)) ^ s[j],
{
    assert(s.take(j + 1).drop_last() =~= s.take(j));
}

/// Replacing one value of `s` changes its reduction by the old and the new
/// value.
pub proof fn lemma_xor_update(s: Seq<i32>, i: int, v: i32)
    requires
        0 <= i < s.len(),
    ensures
        xor_all(s.update(i, v)) == (xor_all(s) ^ s[i]) ^ v,
    decreases s.len(),
{
    let t = s.update(i, v);
    let f = xor_all(s.drop_last());
    let l = s.last();
    if i == s.len() - 1 {
        assert(t.drop_last() =~= s.drop_last());
        assert(f ^ v == ((f ^ l) ^ l) ^ v) by (bit_vector);
    } else {
        assert(t.drop_last() =~= s.drop_last().update(i, v));
        lemma_xor_update(s.drop_last(), i, v);
        let a = s[i];
        assert(((f ^ a) ^ v) ^ l == ((f ^ l) ^ a) ^ v) by (bit_vector);
    }
}

/// Index of the value in column `c`, row `j` of a square of side `h` lies
/// inside the square.
pub proof fn lemma_cell_in_square(c: int, j: int, h: int)
    requires
        0 <= c < h,
        0 <= j < h,
    ensures
        0 <= c + j * h < h * h,
        0 <= j * h + c < h * h,
        0 <= c * h + j < h * h,
{
    assert(0 <= c + j * h < h * h) by (nonlinear_arith)
        requires
            0 <= c < h,
            0 <= j < h,
    ;
    assert(0 <= c * h + j < h * h) by (nonlinear_arith)
        requires
            0 <= c < h,
            0 <= j < h,
    ;
}

} // verus!
