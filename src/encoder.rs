//! The encoder: fills a block with data bits and parity bits, and checks a
//! received block.
use crate::geometry::{
    check_power_of_two, data_slots_before, integer_sqrt, is_power_of_two, is_reserved,
    is_side_of, is_square, lemma_data_slots_monotone, lemma_reserved_side_four,
    lemma_side_exists, reserved_positions, side,
};
use crate::parity::{
    column, columns_parity, directional_parities, high_bit_lines, is_valid_block,
    lemma_cell_in_square, lemma_xor_assoc, lemma_xor_take_step, lemma_xor_zero, low_bit_lines,
    row, rows_parity, xor_all,
};
use vstd::arithmetic::power::pow;
use vstd::prelude::*;

verus! {

/// Side of the square on which the four directional parity groups are laid
/// out: the lines `{1, 3}` and `{2, 3}` are the two index-bit halves of a side
/// of 4, and only there does each reserved position fall in exactly one group.
pub const GROUP_SIDE: usize = 4;

/// Number of directional parity bits in a block.
pub const PARITY_COUNT: usize = 4;

/// Why a block could not be encoded.
#[derive(Clone, Copy, Debug, PartialEq, Eq, Structural)]
pub enum EncodeError {
    /// The data and parity capacities do not add up within `usize`.
    LengthOverflow,
    /// The block length is not a perfect square.
    NotSquare,
    /// The side of the square is not a power of two.
    SideNotPowerOfTwo,
    /// The side of the square is a power of two other than `GROUP_SIDE`, so
    /// the reserved positions do not line up with the parity groups.
    UnsupportedSide,
    /// The parity capacity is not `PARITY_COUNT`.
    ParityCountMismatch,
    /// The input holds fewer values than the block has data positions.
    InsufficientInput,
}

/// The block with every data position filled from `input` in ascending
/// order, and zero at position 0 and at the reserved positions.
pub open spec fn data_block(input: Seq<i32>, len: int) -> Seq<i32> {
    let h = side(len);
    Seq::new(
        len as nat,
        |i: int|
            if 0 < i && !is_reserved(h, i) {
                input[data_slots_before(h, i) as int]
            } else {
                0
            },
    )
}

/// `b` with `par[k]` written at `slots[k]`, for each `k < n` in turn.
pub open spec fn with_parities(b: Seq<i32>, slots: Seq<int>, par: Seq<i32>, n: int) -> Seq<
    i32,
>
    decreases n,
{
    if n <= 0 {
        b
    } else {
        with_parities(b, slots, par, n - 1).update(slots[n - 1], par[n - 1])
    }
}

/// The encoded block: data, then the directional parities of the data block
/// at the reserved positions, then the overall parity at position 0.
pub open spec fn encoded_block(input: Seq<i32>, len: int) -> Seq<i32> {
    let d = data_block(input, len);
    let w = with_parities(
        d,
        reserved_positions(side(len)),
        directional_parities(d),
        PARITY_COUNT as int,
    );
    w.update(0, xor_all(w))
}

/// What encoding `input` with the given capacities yields. Values of `input`
/// beyond the data positions are ignored.
pub open spec fn encode_outcome(bits_of_data: nat, bits_of_parity: nat, input: Seq<i32>) -> Result<
    Seq<i32>,
    EncodeError,
> {
    let len = bits_of_data + bits_of_parity;
    let h = side(len as int);
    if len > usize::MAX {
        Err(EncodeError::LengthOverflow)
    } else if !is_square(len as int) {
        Err(EncodeError::NotSquare)
    } else if !is_power_of_two(h as nat) {
        Err(EncodeError::SideNotPowerOfTwo)
    } else if h != GROUP_SIDE {
        Err(EncodeError::UnsupportedSide)
    } else if bits_of_parity != PARITY_COUNT {
        Err(EncodeError::ParityCountMismatch)
    } else if input.len() < data_slots_before(h, len as int) {
        Err(EncodeError::InsufficientInput)
    } else {
        Ok(encoded_block(input, len as int))
    }
}

/// Tells whether `x` is one of the values of `v`.
fn holds(v: &Vec<i32>, x: i32) -> (r: bool)
    ensures
        r == v@.contains(x),
{
    let mut i: usize = 0;
    while i < v.len()
        invariant
            i <= v.len(),
            forall|k: int| 0 <= k < i ==> v@[k] != x,
        decreases v.len() - i,
    {
        if v[i] == x {
            return true;
        }
        i = i + 1;
    }
    false
}

/// An encoder for blocks of `bits_of_data + bits_of_parity` values.
pub struct Encoder {
    pub bits_of_data: usize,
    pub bits_of_parity: usize,
}

/// A completed block.
pub struct Message {
    pub data: Vec<i32>,
}

impl Message {
    fn new(input: Vec<i32>) -> (r: Message)
        ensures
            r.data@ == input@,
    {
        Message { data: input }
    }
}

impl Encoder {
    pub fn new(bits_of_data: usize, bits_of_parity: usize) -> (r: Encoder)
        ensures
            r.bits_of_data == bits_of_data,
            r.bits_of_parity == bits_of_parity,
    {
        Encoder { bits_of_data, bits_of_parity }
    }

    /// Encodes `input` into a block of `bits_of_data + bits_of_parity`
    /// values, or says why the configuration or the input does not allow it.
    /// Values of `input` beyond the data positions are ignored.
    pub fn encode(&self, input: Vec<i32>) -> (r: Result<Message, EncodeError>)
        ensures
            match r {
                Ok(m) => encode_outcome(
                    self.bits_of_data as nat,
                    self.bits_of_parity as nat,
                    input@,
                ) == Ok::<Seq<i32>, EncodeError>(m.data@),
                Err(e) => encode_outcome(
                    self.bits_of_data as nat,
                    self.bits_of_parity as nat,
                    input@,
                ) == Err::<Seq<i32>, EncodeError>(e),
            },
            r is Ok ==> r->Ok_0.data@.len() == self.bits_of_data + self.bits_of_parity,
    {
        if self.bits_of_data > usize::MAX - self.bits_of_parity {
            return Err(EncodeError::LengthOverflow);
        }
        let length = self.bits_of_data + self.bits_of_parity;
        let height = integer_sqrt(length);
        if height * height != length {
            return Err(EncodeError::NotSquare);
        }
        if !check_power_of_two(height) {
            return Err(EncodeError::SideNotPowerOfTwo);
        }
        if height != GROUP_SIDE {
            return Err(EncodeError::UnsupportedSide);
        }
        if self.bits_of_parity != PARITY_COUNT {
            return Err(EncodeError::ParityCountMismatch);
        }
        let ghost h: int = 4;
        let ghost len = length as int;
        proof {
            lemma_reserved_side_four();
            reveal(pow);
            assert(pow(2, 0) == 1);
            assert(pow(2, 1) == 2);
            assert(pow(2, 2) == 4);
            assert(pow(2, 3) == 8);
            lemma_side_exists(16, 4);
            assert(length == 16);
        }

        let mut block: Vec<i32> = vec![0; length];

        let powers = Encoder::generate_powers(2, length as i32);
        assert(powers@ =~= seq![1i32, 2, 4, 8]);

        let mut data_index: usize = 0;
        let mut i: usize = 1;
        while i < length
            invariant
                1 <= i <= length,
                length == 16,
                self.bits_of_data + self.bits_of_parity == length,
                self.bits_of_parity == 4,
                is_power_of_two(4),
                is_square(16),
                h == 4,
                len == 16,
                side(len) == 4,
                powers@ == seq![1i32, 2, 4, 8],
                forall|x: int| is_reserved(4, x) <==> (x == 1 || x == 2 || x == 4 || x == 8),
                block@.len() == length,
                data_index == data_slots_before(h, i as int),
                data_index <= input.len(),
                forall|k: int|
                    0 <= k < length ==> #[trigger] block@[k] == (if 0 < k < i && !is_reserved(
                        h,
                        k,
                    ) {
                        input@[data_slots_before(h, k) as int]
                    } else {
                        0
                    }),
            decreases length - i,
        {
            let reserved = holds(&powers, i as i32);
            assert(reserved == is_reserved(h, i as int)) by {
                if reserved {
                    let k = choose|k: int| 0 <= k < powers@.len() && powers@[k] == i as i32;
                    assert(k == 0 || k == 1 || k == 2 || k == 3);
                } else {
                    assert(powers@[0] == 1 && powers@[1] == 2 && powers@[2] == 4 && powers@[3]
                        == 8);
                }
            }
            if !reserved {
                if data_index >= input.len() {
                    proof {
                        assert(data_slots_before(h, i as int + 1) == data_index + 1);
                        lemma_data_slots_monotone(h, i as int + 1, len);
                    }
                    return Err(EncodeError::InsufficientInput);
                }
                block.set(i, input[data_index]);
                data_index = data_index + 1;
            }
            i = i + 1;
        }
        let ghost d = data_block(input@, len);
        assert(block@ =~= d);

        let parities = Encoder::get_parities(&block);
        let ghost par = directional_parities(d);
        let ghost slots = reserved_positions(h);

        let mut k: usize = 0;
        while k < self.bits_of_parity
            invariant
                k <= self.bits_of_parity,
                self.bits_of_parity == 4,
                length == 16,
                parities@ == par,
                par.len() == 4,
                slots == seq![1int, 2, 4, 8],
                powers@ == seq![1i32, 2, 4, 8],
                block@ == with_parities(d, slots, par, k as int),
                block@.len() == length,
            decreases self.bits_of_parity - k,
        {
            block.set(powers[k] as usize, parities[k]);
            k = k + 1;
        }

        let zero_parity = Encoder::get_parity_entire_block(&block);
        block.set(0, zero_parity);

        Ok(Message::new(block))
    }

    /// Recomputes the four directional parities and the overall parity of
    /// `block`, and tells whether all five are zero.
    /// A block whose square has a side below 4 holds no parity groups, and
    /// fails validation.
    pub fn validate_block(block: &Vec<i32>) -> (r: bool)
        ensures
            r == (side(block.len() as int) >= 4 && is_valid_block(block@)),
    {
        if integer_sqrt(block.len()) < 4 {
            return false;
        }
        let parities = Encoder::get_parities(block);
        let zero_parity = Encoder::get_parity_entire_block(block);
        parities[0] == 0 && parities[1] == 0 && parities[2] == 0 && parities[3] == 0
            && zero_parity == 0
    }

    /// Exclusive-or of every value of `block`.
    pub fn get_parity_entire_block(block: &Vec<i32>) -> (r: i32)
        ensures
            r == xor_all(block@),
    {
        let mut parity: i32 = 0;
        let mut i: usize = 0;
        while i < block.len()
            invariant
                i <= block.len(),
                parity == xor_all(block@.take(i as int)),
            decreases block.len() - i,
        {
            proof {
                lemma_xor_take_step(block@, i as int);
            }
            parity = parity ^ block[i];
            i = i + 1;
        }
        assert(block@.take(block.len() as int) =~= block@);
        parity
    }

    /// The four directional parities of `block`, in the order of the reserved
    /// positions that they fill.
    pub fn get_parities(block: &Vec<i32>) -> (r: Vec<i32>)
        requires
            side(block.len() as int) >= 4,
        ensures
            r@ == directional_parities(block@),
    {
        let q1_and_3: Vec<usize> = vec![1, 3];
        let q2_and_4: Vec<usize> = vec![2, 3];
        assert(q1_and_3@ =~= low_bit_lines());
        assert(q2_and_4@ =~= high_bit_lines());

        let answer_q1 = Encoder::get_parity_of_columns(block, q1_and_3.clone());
        let answer_q2 = Encoder::get_parity_of_columns(block, q2_and_4.clone());
        let answer_q3 = Encoder::get_parity_of_rows(block, q1_and_3);
        let answer_q4 = Encoder::get_parity_of_rows(block, q2_and_4);

        let r = vec![answer_q1, answer_q2, answer_q3, answer_q4];
        assert(r@ =~= directional_parities(block@));
        r
    }

    /// Exclusive-or of every value in the listed columns of the square layout
    /// of `block`.
    pub fn get_parity_of_columns(block: &Vec<i32>, columns: Vec<usize>) -> (r: i32)
        requires
            forall|k: int| 0 <= k < columns.len() ==> columns[k] < side(block.len() as int),
        ensures
            r == columns_parity(block@, columns@, side(block.len() as int)),
    {
        let height = integer_sqrt(block.len());
        let ghost h = height as int;
        let ghost per_line = Seq::new(
            columns.len() as nat,
            |k: int| xor_all(column(block@, columns[k] as int, h)),
        );
        let mut parity: i32 = 0;
        let mut k: usize = 0;
        while k < columns.len()
            invariant
                k <= columns.len(),
                height as int == h,
                h == side(block.len() as int),
                is_side_of(block.len() as int, h),
                forall|t: int| 0 <= t < columns.len() ==> columns[t] < h,
                per_line == Seq::new(
                    columns.len() as nat,
                    |t: int| xor_all(column(block@, columns[t] as int, h)),
                ),
                parity == xor_all(per_line.take(k as int)),
            decreases columns.len() - k,
        {
            let c = columns[k];
            let ghost line = column(block@, c as int, h);
            let ghost before = parity;
            proof {
                lemma_xor_zero(before);
            }
            let mut j: usize = 0;
            while j < height
                invariant
                    j <= height,
                    height == h,
                    is_side_of(block.len() as int, h),
                    c < h,
                    line == column(block@, c as int, h),
                    parity == before ^ xor_all(line.take(j as int)),
                decreases height - j,
            {
                proof {
                    lemma_cell_in_square(c as int, j as int, h);
                    lemma_xor_take_step(line, j as int);
                    lemma_xor_assoc(before, xor_all(line.take(j as int)), line[j as int]);
                }
                parity = parity ^ block[c + j * height];
                j = j + 1;
            }
            proof {
                assert(line.take(h) =~= line);
                lemma_xor_take_step(per_line, k as int);
            }
            k = k + 1;
        }
        assert(per_line.take(columns.len() as int) =~= per_line);
        parity
    }

    /// Exclusive-or of every value in the listed rows of the square layout of
    /// `block`.
    pub fn get_parity_of_rows(block: &Vec<i32>, rows: Vec<usize>) -> (r: i32)
        requires
            forall|k: int| 0 <= k < rows.len() ==> rows[k] < side(block.len() as int),
        ensures
            r == rows_parity(block@, rows@, side(block.len() as int)),
    {
        let height = integer_sqrt(block.len());
        let ghost h = height as int;
        let ghost per_line = Seq::new(
            rows.len() as nat,
            |k: int| xor_all(row(block@, rows[k] as int, h)),
        );
        let mut parity: i32 = 0;
        let mut k: usize = 0;
        while k < rows.len()
            invariant
                k <= rows.len(),
                height as int == h,
                h == side(block.len() as int),
                is_side_of(block.len() as int, h),
                forall|t: int| 0 <= t < rows.len() ==> rows[t] < h,
                per_line == Seq::new(
                    rows.len() as nat,
                    |t: int| xor_all(row(block@, rows[t] as int, h)),
                ),
                parity == xor_all(per_line.take(k as int)),
            decreases rows.len() - k,
        {
            let i = rows[k];
            let ghost line = row(block@, i as int, h);
            let ghost before = parity;
            proof {
                lemma_xor_zero(before);
            }
            let mut j: usize = 0;
            while j < height
                invariant
                    j <= height,
                    height == h,
                    is_side_of(block.len() as int, h),
                    i < h,
                    line == row(block@, i as int, h),
                    parity == before ^ xor_all(line.take(j as int)),
                decreases height - j,
            {
                proof {
                    lemma_cell_in_square(i as int, j as int, h);
                    lemma_xor_take_step(line, j as int);
                    lemma_xor_assoc(before, xor_all(line.take(j as int)), line[j as int]);
                }
                parity = parity ^ block[i * height + j];
                j = j + 1;
            }
            proof {
                assert(line.take(h) =~= line);
                lemma_xor_take_step(per_line, k as int);
            }
            k = k + 1;
        }
        assert(per_line.take(rows.len() as int) =~= per_line);
        parity
    }

    /// The powers `base^0, base^1, ...` below the integer square root of `n`.
    pub fn generate_powers(base: i32, n: i32) -> (r: Vec<i32>)
        requires
            n >= 0,
            forall|k: nat| #![trigger pow(base as int, k)]
                k < side(n as int) ==> i32::MIN <= pow(base as int, k) <= i32::MAX,
        ensures
            r@.len() == side(n as int),
            forall|k: int| 0 <= k < r@.len() ==> r@[k] as int == pow(base as int, k as nat),
    {
        let sqrt_n = integer_sqrt(n as usize);
        let mut r: Vec<i32> = Vec::new();
        let mut p: i32 = 1;
        let mut i: usize = 0;
        assert(pow(base as int, 0) == 1) by {
            reveal(pow);
        }
        while i < sqrt_n
            invariant
                i <= sqrt_n,
                sqrt_n == side(n as int),
                r@.len() == i,
                i < sqrt_n ==> p as int == pow(base as int, i as nat),
                forall|k: nat| #![trigger pow(base as int, k)]
                    k < side(n as int) ==> i32::MIN <= pow(base as int, k) <= i32::MAX,
                forall|k: int| 0 <= k < i ==> r@[k] as int == pow(base as int, k as nat),
            decreases sqrt_n - i,
        {
            r.push(p);
            if i + 1 < sqrt_n {
                assert(pow(base as int, (i + 1) as nat) == base * pow(base as int, i as nat)) by {
                    reveal(pow);
                }
                assert(i32::MIN <= pow(base as int, (i + 1) as nat) <= i32::MAX);
                p = p * base;
            }
            i = i + 1;
        }
        r
    }
}

} // verus!
