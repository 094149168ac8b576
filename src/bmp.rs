use vstd::prelude::*;

verus! {

/// One palette color, as red, green and blue channel values.
#[derive(Debug, Clone, Copy, PartialEq, Eq, Structural)]
pub struct ColorMapEntry {
    pub r: u8,
    pub g: u8,
    pub b: u8,
}

/// Whether the first stored row of pixels is the top or the bottom of the image.
#[derive(Debug, Clone, Copy, PartialEq, Eq, Structural)]
pub enum RowOrder {
    TopDown,
    BottomUp,
}

/// Size in bytes of the generic file header.
pub const FILE_HEADER_SIZE: u32 = 14;

/// Size in bytes of the info header (the 40-byte `BITMAPINFOHEADER` layout).
pub const DIB_HEADER_SIZE: u32 = 40;

/// The two signature bytes "BM", read as a little-endian `u16`.
pub const SIGNATURE: u16 = 0x4d42;

/// Resolution written on both axes, in pixels per meter.
pub const RESOLUTION: u32 = 1000;

/// `x` as two little-endian bytes.
pub open spec fn le_u16(x: u16) -> Seq<u8> {
    seq![(x % 256) as u8, (x / 256) as u8]
}

/// `x` as four little-endian bytes.
pub open spec fn le_u32(x: u32) -> Seq<u8> {
    seq![(x % 256) as u8, (x / 0x100 % 256) as u8, (x / 0x1_0000 % 256) as u8, (x / 0x100_0000) as u8]
}

/// `x` as four little-endian bytes of its two's complement.
pub open spec fn le_i32(x: i32) -> Seq<u8> {
    le_u32(x as u32)
}

/// The unsigned little-endian 32-bit number at `off` in `s`.
pub open spec fn read_u32_at(s: Seq<u8>, off: int) -> int {
    s[off] + s[off + 1] * 0x100 + s[off + 2] * 0x1_0000 + s[off + 3] * 0x100_0000
}

/// The signed (two's complement) little-endian 32-bit number at `off` in `s`.
pub open spec fn read_i32_at(s: Seq<u8>, off: int) -> int {
    let u = read_u32_at(s, off);
    if u >= 0x8000_0000 {
        u - 0x1_0000_0000
    } else {
        u
    }
}

/// The height field: negative for top-down rows, positive for bottom-up rows.
pub open spec fn signed_height(height: u32, order: RowOrder) -> i32 {
    match order {
        RowOrder::TopDown => (-(height as int)) as i32,
        RowOrder::BottomUp => height as i32,
    }
}

/// Offset of the pixel data from the start of the file, behind a palette of
/// `n` entries.
pub open spec fn pixel_offset(n: nat) -> int {
    FILE_HEADER_SIZE + DIB_HEADER_SIZE + 4 * n
}

/// The generic file header for a palette of `n` entries: signature, file size
/// (left 0), two reserved fields, pixel-data offset.
pub open spec fn file_header(n: nat) -> Seq<u8> {
    le_u16(SIGNATURE) + le_u32(0) + le_u16(0) + le_u16(0) + le_u32(pixel_offset(n) as u32)
}

/// The info header of a 1-bit, uncompressed image whose palette has `colors`
/// entries.
pub open spec fn info_header(
    width: u32,
    height: u32,
    order: RowOrder,
    data_size: u32,
    colors: u32,
) -> Seq<u8> {
    le_u32(DIB_HEADER_SIZE) + le_u32(width) + le_i32(signed_height(height, order)) + le_u16(1)
        + le_u16(1) + le_u32(0) + le_u32(data_size) + le_u32(RESOLUTION) + le_u32(RESOLUTION)
        + le_u32(colors) + le_u32(0)
}

/// One palette entry on file: blue, green, red, then a zero byte.
pub open spec fn entry_bytes(e: ColorMapEntry) -> Seq<u8> {
    seq![e.b, e.g, e.r, 0u8]
}

/// The palette on file: its entries in order.
pub open spec fn palette_bytes(p: Seq<ColorMapEntry>) -> Seq<u8>
    decreases p.len(),
{
    if p.len() == 0 {
        Seq::empty()
    } else {
        palette_bytes(p.drop_last()) + entry_bytes(p.last())
    }
}

/// The whole file: headers, palette, then the pixel bytes as given (rows are
/// not padded, so the file is well formed only when each row already fills a
/// multiple of four bytes).
pub open spec fn bmp_file(
    width: u32,
    height: u32,
    palette: Seq<ColorMapEntry>,
    order: RowOrder,
    data: Seq<u8>,
) -> Seq<u8> {
    file_header(palette.len()) + info_header(width, height, order, data.len() as u32, palette.len() as u32)
        + palette_bytes(palette) + data
}

proof fn lemma_palette_len(p: Seq<ColorMapEntry>)
    ensures
        palette_bytes(p).len() == 4 * p.len(),
    decreases p.len(),
{
    if p.len() > 0 {
        lemma_palette_len(p.drop_last());
    }
}

proof fn lemma_i32_as_u32(x: i32)
    ensures
        x as u32 == if x < 0 { x + 0x1_0000_0000 } else { x as int },
{
    assert(x < 0 ==> x as u32 == x + 0x1_0000_0000) by (bit_vector);
    assert(x >= 0 ==> x as u32 == x) by (bit_vector);
}

proof fn lemma_le_u32_read(x: u32)
    ensures
        le_u32(x).len() == 4,
        read_u32_at(le_u32(x), 0) == x,
{
    let s = le_u32(x);
    assert((x % 256) + (x / 0x100 % 256) * 0x100 + (x / 0x1_0000 % 256) * 0x1_0000 + (x / 0x100_0000)
        * 0x100_0000 == x) by (bit_vector);
    assert(s[0] == x % 256);
    assert(s[1] == x / 0x100 % 256);
    assert(s[2] == x / 0x1_0000 % 256);
    assert(s[3] == x / 0x100_0000);
}

fn write_u16(out: &mut Vec<u8>, x: u16)
    ensures
        final(out)@ == old(out)@ + le_u16(x),
{
    out.push((x % 256) as u8);
    out.push((x / 256) as u8);
    assert(final(out)@ =~= old(out)@ + le_u16(x));
}

fn write_u32(out: &mut Vec<u8>, x: u32)
    ensures
        final(out)@ == old(out)@ + le_u32(x),
{
    out.push((x % 256) as u8);
    out.push((x / 0x100 % 256) as u8);
    out.push((x / 0x1_0000 % 256) as u8);
    out.push((x / 0x100_0000) as u8);
    assert(final(out)@ =~= old(out)@ + le_u32(x));
}

fn write_i32(out: &mut Vec<u8>, x: i32)
    ensures
        final(out)@ == old(out)@ + le_i32(x),
{
    write_u32(out, x as u32);
}

fn write_byte(out: &mut Vec<u8>, x: u8)
    ensures
        final(out)@ == old(out)@.push(x),
{
    out.push(x);
}

fn write_bmp_header(out: &mut Vec<u8>, color_map_size: u32)
    requires
        color_map_size <= 2,
    ensures
        final(out)@ == old(out)@ + file_header(color_map_size as nat),
{
    let ghost start = out@;
    write_u16(out, SIGNATURE);
    write_u32(out, 0);
    write_u16(out, 0);
    write_u16(out, 0);
    write_u32(out, FILE_HEADER_SIZE + DIB_HEADER_SIZE + color_map_size * 4);
    assert(out@ =~= start + file_header(color_map_size as nat));
}

fn write_dib3_header(
    out: &mut Vec<u8>,
    width: u32,
    height: u32,
    row_order: RowOrder,
    data_size: u32,
    colors: u32,
)
    requires
        height <= i32::MAX,
    ensures
        final(out)@ == old(out)@ + info_header(width, height, row_order, data_size, colors),
{
    let ghost start = out@;
    let fixed_height: i32 = match row_order {
        RowOrder::TopDown => -(height as i32),
        RowOrder::BottomUp => height as i32,
    };
    write_u32(out, DIB_HEADER_SIZE);
    write_u32(out, width);
    write_i32(out, fixed_height);
    write_u16(out, 1);
    write_u16(out, 1);
    write_u32(out, 0);
    write_u32(out, data_size);
    write_u32(out, RESOLUTION);
    write_u32(out, RESOLUTION);
    write_u32(out, colors);
    write_u32(out, 0);
    assert(out@ =~= start + info_header(width, height, row_order, data_size, colors));
}

fn write_color_map_entry(out: &mut Vec<u8>, entry: &ColorMapEntry)
    ensures
        final(out)@ == old(out)@ + entry_bytes(*entry),
{
    write_byte(out, entry.b);
    write_byte(out, entry.g);
    write_byte(out, entry.r);
    write_byte(out, 0);
    assert(final(out)@ =~= old(out)@ + entry_bytes(*entry));
}

/// The bytes of a 1-bit-per-pixel bitmap file of `width` by `height` pixels
/// with the palette `color_map` (entry 0 for clear bits, entry 1 for set bits)
/// and the packed pixel bytes `data`, copied as they are. The info header
/// declares as many palette colors as `color_map` holds.
///
/// Rows are not padded to four bytes: the file is well formed when `width` is
/// a multiple of 32, or when `data` already holds padded rows.
pub fn encode(
    width: u32,
    height: u32,
    color_map: &[ColorMapEntry],
    row_order: RowOrder,
    data: &[u8],
) -> (r: Vec<u8>)
    requires
        color_map@.len() <= 2,
        height <= i32::MAX,
        data@.len() <= u32::MAX,
    ensures
        r@ == bmp_file(width, height, color_map@, row_order, data@),
        r@.len() == FILE_HEADER_SIZE + DIB_HEADER_SIZE + 4 * color_map@.len() + data@.len(),
        read_u32_at(r@, 10) == pixel_offset(color_map@.len()),
        read_u32_at(r@, 46) == color_map@.len(),
        read_i32_at(r@, 22) == match row_order {
            RowOrder::TopDown => -(height as int),
            RowOrder::BottomUp => height as int,
        },
        height > 0 ==> (read_i32_at(r@, 22) < 0 <==> row_order == RowOrder::TopDown),
{
    let mut out: Vec<u8> = Vec::new();
    write_bmp_header(&mut out, color_map.len() as u32);
    write_dib3_header(&mut out, width, height, row_order, data.len() as u32, color_map.len() as u32);
    let ghost headers = out@;
    let mut k: usize = 0;
    while k < color_map.len()
        invariant
            k <= color_map@.len(),
            out@ == headers + palette_bytes(color_map@.subrange(0, k as int)),
        decreases color_map@.len() - k,
    {
        write_color_map_entry(&mut out, &color_map[k]);
        proof {
            let p = color_map@.subrange(0, k + 1);
            assert(p.drop_last() =~= color_map@.subrange(0, k as int));
        }
        k = k + 1;
    }
    assert(color_map@.subrange(0, color_map@.len() as int) =~= color_map@);
    let ghost before_data = out@;
    let mut m: usize = 0;
    while m < data.len()
        invariant
            m <= data@.len(),
            out@ == before_data + data@.subrange(0, m as int),
        decreases data@.len() - m,
    {
        out.push(data[m]);
        assert(data@.subrange(0, m + 1) =~= data@.subrange(0, m as int).push(data@[m as int]));
        m = m + 1;
    }
    assert(data@.subrange(0, data@.len() as int) =~= data@);
    proof {
        lemma_palette_len(color_map@);
        lemma_file_fields(width, height, color_map@, row_order, data@);
    }
    out
}

/// Where the length, the pixel offset, the height and the palette size of a
/// file are read.
proof fn lemma_file_fields(
    width: u32,
    height: u32,
    palette: Seq<ColorMapEntry>,
    order: RowOrder,
    data: Seq<u8>,
)
    requires
        palette.len() <= 2,
        height <= i32::MAX,
        data.len() <= u32::MAX,
    ensures
        bmp_file(width, height, palette, order, data).len() == FILE_HEADER_SIZE + DIB_HEADER_SIZE + 4
            * palette.len() + data.len(),
        read_u32_at(bmp_file(width, height, palette, order, data), 10) == pixel_offset(palette.len()),
        read_u32_at(bmp_file(width, height, palette, order, data), 46) == palette.len(),
        read_i32_at(bmp_file(width, height, palette, order, data), 22) == match order {
            RowOrder::TopDown => -(height as int),
            RowOrder::BottomUp => height as int,
        },
{
    let f = bmp_file(width, height, palette, order, data);
    lemma_palette_len(palette);
    let off = pixel_offset(palette.len()) as u32;
    lemma_le_u32_read(off);
    let h = signed_height(height, order);
    assert(h == match order {
        RowOrder::TopDown => -(height as int),
        RowOrder::BottomUp => height as int,
    });
    lemma_i32_as_u32(h);
    lemma_le_u32_read(h as u32);
    let hs = le_u32(h as u32);
    let os = le_u32(off);
    assert(f.len() == FILE_HEADER_SIZE + DIB_HEADER_SIZE + 4 * palette.len() + data.len());
    assert(f[10] == os[0] && f[11] == os[1] && f[12] == os[2] && f[13] == os[3]);
    lemma_le_u32_read(palette.len() as u32);
    let cs = le_u32(palette.len() as u32);
    assert(f[46] == cs[0] && f[47] == cs[1] && f[48] == cs[2] && f[49] == cs[3]);
    assert(f[22] == hs[0] && f[23] == hs[1] && f[24] == hs[2] && f[25] == hs[3]);
}

} // verus!
