use vstd::prelude::*;

verus! {

/// The two states of a cell: `White` is a clear bit, `Black` a set bit.
#[derive(Debug, Clone, Copy, PartialEq, Eq, Structural)]
pub enum Color {
    Black,
    White,
}

/// Why a grid operation was refused.
#[derive(Debug, Clone, Copy, PartialEq, Eq, Structural)]
pub enum FieldError {
    /// The grid was asked for with a size that is not positive.
    InvalidSize,
    /// A cell was addressed outside `[0, size) x [0, size)`.
    OutOfRange,
}

/// A square grid of `size * size` one-bit cells, packed eight to a byte.
///
/// Cell `(i, j)` has the flat index `i * size + j`; that index lives in byte
/// `flat / 8`, at bit `flat % 8` (bit 0 being the least significant).
pub struct Field {
    pub size: i32,
    pub data: Vec<u8>,
}

impl Field {
    /// The grid's side is positive, its buffer holds exactly its cells, and
    /// the bits of the last byte past the last cell are clear.
    pub open spec fn wf(&self) -> bool {
        &&& self.size > 0
        &&& self.data@.len() == byte_len(self.size * self.size)
        &&& padding_clear(self.data@, self.size * self.size)
    }

    /// The color of cell `(i, j)`.
    pub open spec fn color_at(&self, i: int, j: int) -> Color {
        color_in(self.data@, self.size as int, i, j)
    }

    /// A grid of side `size` with every cell `White`, or `InvalidSize` when
    /// `size` is not positive.
    pub fn new(size: i32) -> (r: Result<Field, FieldError>)
        requires
            size > 0 ==> byte_len(size * size) <= usize::MAX,
        ensures
            r is Err <==> size <= 0,
            r is Err ==> r == Err::<Field, FieldError>(FieldError::InvalidSize),
            r matches Ok(f) ==> {
                &&& f.wf()
                &&& f.size == size
                &&& f.data@.len() == byte_len(size * size)
                &&& forall|k: int| 0 <= k < f.data@.len() ==> #[trigger] f.data@[k] == 0u8
                &&& forall|i: int, j: int| in_grid(size as int, i, j) ==> #[trigger] f.color_at(i, j) == Color::White
            },
    {
        if size <= 0 {
            return Err(FieldError::InvalidSize);
        }
        assert(0 < size * size < 0x4000_0000_0000_0000) by (nonlinear_arith)
            requires 0 < size <= 0x7fff_ffff;
        let n_cells: u64 = size as u64 * size as u64;
        let n_bytes: u64 = n_cells / 8 + if n_cells % 8 == 0 { 0 } else { 1 };
        let n_bytes = n_bytes as usize;
        let mut data: Vec<u8> = Vec::new();
        let mut k: usize = 0;
        while k < n_bytes
            invariant
                k <= n_bytes,
                n_bytes == byte_len(size * size),
                data@.len() == k,
                forall|m: int| 0 <= m < k ==> data@[m] == 0u8,
            decreases n_bytes - k,
        {
            data.push(0u8);
            k = k + 1;
        }
        let f = Field { size, data };
        assert forall|k: int| size * size <= k < 8 * f.data@.len() implies !#[trigger] flat_bit(f.data@, k) by {
            let bit = (k % 8) as u8;
            assert(0u8 & (1u8 << bit) == 0) by (bit_vector);
        }
        assert forall|i: int, j: int| in_grid(size as int, i, j) implies #[trigger] f.color_at(i, j) == Color::White by {
            lemma_flat_index(size as int, i, j);
            let kk = i * size + j;
            let bit = (kk % 8) as u8;
            assert(0u8 & (1u8 << bit) == 0) by (bit_vector);
        }
        Ok(f)
    }

    /// Where cell `(i, j)` lives: its byte in `data` and its bit in that byte.
    fn convert_index(&self, i: i32, j: i32) -> (r: (usize, u8))
        requires
            self.wf(),
            in_grid(self.size as int, i as int, j as int),
        ensures
            r.0 == (i * self.size + j) / 8,
            r.1 == (i * self.size + j) % 8,
            r.0 < self.data@.len(),
    {
        proof {
            lemma_flat_index(self.size as int, i as int, j as int);
        }
        assert(self.size * self.size < 0x4000_0000_0000_0000) by (nonlinear_arith)
            requires 0 < self.size <= 0x7fff_ffff;
        let flat: u64 = i as u64 * self.size as u64 + j as u64;
        let n_bytes = self.data.len();
        assert(flat / 8 < n_bytes);
        ((flat / 8) as usize, (flat % 8) as u8)
    }

    /// The color of cell `(i, j)`, or `OutOfRange` when it is not in the grid.
    pub fn get(&self, i: i32, j: i32) -> (r: Result<Color, FieldError>)
        requires
            self.wf(),
        ensures
            in_grid(self.size as int, i as int, j as int) ==> r == Ok::<Color, FieldError>(self.color_at(i as int, j as int)),
            !in_grid(self.size as int, i as int, j as int) ==> r == Err::<Color, FieldError>(FieldError::OutOfRange),
    {
        if i < 0 || j < 0 || i >= self.size || j >= self.size {
            return Err(FieldError::OutOfRange);
        }
        let (byte_index, bit_index) = self.convert_index(i, j);
        if self.data[byte_index] & (1u8 << bit_index) == 0 {
            Ok(Color::White)
        } else {
            Ok(Color::Black)
        }
    }

    /// Gives cell `(i, j)` the color `color`, leaving every other cell as it
    /// was; `OutOfRange`, with the grid unchanged, when it is not in the grid.
    pub fn set(&mut self, i: i32, j: i32, color: Color) -> (r: Result<(), FieldError>)
        requires
            old(self).wf(),
        ensures
            final(self).wf(),
            final(self).size == old(self).size,
            in_grid(old(self).size as int, i as int, j as int) ==> {
                &&& r is Ok
                &&& final(self).data@ == set_in(old(self).data@, old(self).size as int, i as int, j as int, color)
                &&& final(self).color_at(i as int, j as int) == color
                &&& forall|i2: int, j2: int|
                    in_grid(old(self).size as int, i2, j2) && (i2, j2) != (i as int, j as int)
                        ==> #[trigger] final(self).color_at(i2, j2) == old(self).color_at(i2, j2)
            },
            !in_grid(old(self).size as int, i as int, j as int) ==> {
                &&& r == Err::<(), FieldError>(FieldError::OutOfRange)
                &&& final(self).data@ == old(self).data@
            },
    {
        if i < 0 || j < 0 || i >= self.size || j >= self.size {
            return Err(FieldError::OutOfRange);
        }
        let (byte_index, bit_index) = self.convert_index(i, j);
        let old_byte = self.data[byte_index];
        let new_byte = match color {
            Color::White => old_byte & !(1u8 << bit_index),
            Color::Black => old_byte | (1u8 << bit_index),
        };
        self.data.set(byte_index, new_byte);
        proof {
            lemma_get_after_set(old(self).data@, self.size as int, i as int, j as int, color);
            lemma_set_keeps_other_bits(old(self).data@, self.size as int, i as int, j as int, color);
            lemma_flat_index(self.size as int, i as int, j as int);
            assert(padding_clear(self.data@, self.size * self.size));
        }
        Ok(())
    }
}

/// `ceil(n / 8)`: the number of bytes that hold `n` bits.
pub open spec fn byte_len(n: int) -> int {
    if n % 8 == 0 {
        n / 8
    } else {
        n / 8 + 1
    }
}

/// Whether bit `k` (0 = least significant) of `b` is set.
pub open spec fn bit_of(b: u8, k: u8) -> bool {
    b & (1u8 << k) != 0
}

/// `b` with bit `k` set to `on` and every other bit kept.
pub open spec fn with_bit(b: u8, k: u8, on: bool) -> u8 {
    if on {
        b | (1u8 << k)
    } else {
        b & !(1u8 << k)
    }
}

/// Whether bit number `k` of the packed buffer `data` is set.
pub open spec fn flat_bit(data: Seq<u8>, k: int) -> bool {
    bit_of(data[k / 8], (k % 8) as u8)
}

/// The color of cell `(i, j)` of a grid of side `size` held in `data`.
pub open spec fn color_in(data: Seq<u8>, size: int, i: int, j: int) -> Color {
    if flat_bit(data, i * size + j) {
        Color::Black
    } else {
        Color::White
    }
}

/// `data` after cell `(i, j)` of a grid of side `size` was given color `c`.
pub open spec fn set_in(data: Seq<u8>, size: int, i: int, j: int, c: Color) -> Seq<u8> {
    let k = i * size + j;
    data.update(k / 8, with_bit(data[k / 8], (k % 8) as u8, c == Color::Black))
}

/// No bit of `data` from number `n` on is set.
pub open spec fn padding_clear(data: Seq<u8>, n: int) -> bool {
    forall|k: int| n <= k < 8 * data.len() ==> !#[trigger] flat_bit(data, k)
}

/// Whether `(i, j)` addresses a cell of a grid of side `size`.
pub open spec fn in_grid(size: int, i: int, j: int) -> bool {
    0 <= i < size && 0 <= j < size
}

proof fn lemma_bit_update(b: u8, k: u8, k2: u8, on: bool)
    requires
        k < 8,
        k2 < 8,
    ensures
        bit_of(with_bit(b, k, on), k2) == if k2 == k { on } else { bit_of(b, k2) },
{
    if on {
        assert(k2 == k ==> (b | (1u8 << k)) & (1u8 << k2) != 0) by (bit_vector)
            requires k < 8, k2 < 8;
        assert(k2 != k ==> (((b | (1u8 << k)) & (1u8 << k2) != 0) == (b & (1u8 << k2) != 0))) by (bit_vector)
            requires k < 8, k2 < 8;
    } else {
        assert(k2 == k ==> (b & !(1u8 << k)) & (1u8 << k2) == 0) by (bit_vector)
            requires k < 8, k2 < 8;
        assert(k2 != k ==> (((b & !(1u8 << k)) & (1u8 << k2) != 0) == (b & (1u8 << k2) != 0))) by (bit_vector)
            requires k < 8, k2 < 8;
    }
}

/// Setting one cell gives that cell the new color and leaves every other cell
/// of the grid as it was.
pub proof fn lemma_get_after_set(data: Seq<u8>, size: int, i: int, j: int, c: Color)
    requires
        size > 0,
        data.len() == byte_len(size * size),
        in_grid(size, i, j),
    ensures
        set_in(data, size, i, j, c).len() == data.len(),
        color_in(set_in(data, size, i, j, c), size, i, j) == c,
        forall|i2: int, j2: int|
            in_grid(size, i2, j2) && (i2, j2) != (i, j) ==> #[trigger] color_in(
                set_in(data, size, i, j, c),
                size,
                i2,
                j2,
            ) == color_in(data, size, i2, j2),
{
    lemma_flat_index(size, i, j);
    let k = i * size + j;
    lemma_bit_update(data[k / 8], (k % 8) as u8, (k % 8) as u8, c == Color::Black);
    assert forall|i2: int, j2: int|
        in_grid(size, i2, j2) && (i2, j2) != (i, j) implies #[trigger] color_in(
            set_in(data, size, i, j, c),
            size,
            i2,
            j2,
        ) == color_in(data, size, i2, j2) by {
        lemma_flat_index(size, i2, j2);
        lemma_flat_distinct(size, i, j, i2, j2);
        let k2 = i2 * size + j2;
        lemma_bit_update(data[k / 8], (k % 8) as u8, (k2 % 8) as u8, c == Color::Black);
    }
}

/// Setting one cell changes no bit of the buffer but that cell's own.
pub proof fn lemma_set_keeps_other_bits(data: Seq<u8>, size: int, i: int, j: int, c: Color)
    requires
        size > 0,
        data.len() == byte_len(size * size),
        in_grid(size, i, j),
    ensures
        set_in(data, size, i, j, c).len() == data.len(),
        forall|k2: int|
            0 <= k2 < 8 * data.len() && k2 != i * size + j ==> #[trigger] flat_bit(
                set_in(data, size, i, j, c),
                k2,
            ) == flat_bit(data, k2),
{
    lemma_flat_index(size, i, j);
    let k = i * size + j;
    assert forall|k2: int|
        0 <= k2 < 8 * data.len() && k2 != k implies #[trigger] flat_bit(
            set_in(data, size, i, j, c),
            k2,
        ) == flat_bit(data, k2) by {
        if k2 / 8 == k / 8 {
            lemma_bit_update(data[k / 8], (k % 8) as u8, (k2 % 8) as u8, c == Color::Black);
        }
    }
}

/// The flat index of a cell of the grid lies in the packed buffer.
proof fn lemma_flat_index(size: int, i: int, j: int)
    requires
        size > 0,
        in_grid(size, i, j),
    ensures
        0 <= i * size + j < size * size,
        0 <= (i * size + j) / 8 < byte_len(size * size),
{
    assert(0 <= i * size + j < size * size) by (nonlinear_arith)
        requires
            0 <= i < size,
            0 <= j < size,
    ;
}

/// Two different cells have different flat indices.
proof fn lemma_flat_distinct(size: int, i: int, j: int, i2: int, j2: int)
    requires
        size > 0,
        in_grid(size, i, j),
        in_grid(size, i2, j2),
        (i, j) != (i2, j2),
    ensures
        i * size + j != i2 * size + j2,
{
    if i == i2 {
    } else if i < i2 {
        assert(i * size + j < i2 * size + j2) by (nonlinear_arith)
            requires i < i2, 0 <= j < size, 0 <= j2;
    } else {
        assert(i2 * size + j2 < i * size + j) by (nonlinear_arith)
            requires i2 < i, 0 <= j2 < size, 0 <= j;
    }
}

} // verus!
