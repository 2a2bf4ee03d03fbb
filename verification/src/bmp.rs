//! The computed parts of BMP output: the two file headers and the row
//! padding. Writing the bytes out is the caller's concern; everything that
//! can be stated exactly — sizes, magic bytes, little-endian fields — is
//! stated and proved here.
use vstd::prelude::*;

verus! {

/// Number of bytes a BMP file with `height * width` 24-bit pixels holds
/// ahead of any row padding: the two headers plus three bytes per pixel.
pub fn bmp_file_size(height: usize, width: usize) -> (r: usize)
    requires
        54 + 3 * (height as int) * (width as int) <= usize::MAX as int,
    ensures
        r as int == 54 + 3 * (height as int) * (width as int),
{
    proof {
        assert(0 <= (height as int) * (width as int)) by (nonlinear_arith)
            requires
                height as int >= 0,
                width as int >= 0,
        ;
        assert(3 * ((height as int) * (width as int)) == 3 * (height as int) * (width as int))
            by (nonlinear_arith);
    }
    54 + 3 * (height * width)
}

/// The 14-byte BMP file header: the `BM` magic, the file size as a
/// little-endian 32-bit field, and the fixed pixel-data offset 54.
pub fn bmp_file_header(filesize: u32) -> (r: Vec<u8>)
    ensures
        r@.len() == 14,
        r@[0] == 66u8,
        r@[1] == 77u8,
        r@[2] as int == filesize as int % 256,
        r@[3] as int == (filesize as int / 256) % 256,
        r@[4] as int == (filesize as int / 65536) % 256,
        r@[5] as int == (filesize as int / 16777216) % 256,
        r@[10] == 54u8,
        forall|i: int| 6 <= i <= 9 ==> r@[i] == 0u8,
        forall|i: int| 11 <= i <= 13 ==> r@[i] == 0u8,
{
    let b0 = filesize as u8;
    let b1 = (filesize >> 8) as u8;
    let b2 = (filesize >> 16) as u8;
    let b3 = (filesize >> 24) as u8;
    proof {
        lemma_le_bytes(filesize);
    }
    vec![66u8, 77u8, b0, b1, b2, b3, 0u8, 0u8, 0u8, 0u8, 54u8, 0u8, 0u8, 0u8]
}

/// The 40-byte BMP info header: header size, width and height as
/// little-endian 32-bit fields, one color plane, 24 bits per pixel.
pub fn bmp_info_header(width: u32, height: u32) -> (r: Vec<u8>)
    ensures
        r@.len() == 40,
        r@[0] == 40u8,
        r@[4] as int == width as int % 256,
        r@[5] as int == (width as int / 256) % 256,
        r@[6] as int == (width as int / 65536) % 256,
        r@[7] as int == (width as int / 16777216) % 256,
        r@[8] as int == height as int % 256,
        r@[9] as int == (height as int / 256) % 256,
        r@[10] as int == (height as int / 65536) % 256,
        r@[11] as int == (height as int / 16777216) % 256,
        r@[12] == 1u8,
        r@[14] == 24u8,
        r@[1] == 0u8 && r@[2] == 0u8 && r@[3] == 0u8 && r@[13] == 0u8,
        forall|i: int| 15 <= i <= 39 ==> r@[i] == 0u8,
{
    let w0 = width as u8;
    let w1 = (width >> 8) as u8;
    let w2 = (width >> 16) as u8;
    let w3 = (width >> 24) as u8;
    let h0 = height as u8;
    let h1 = (height >> 8) as u8;
    let h2 = (height >> 16) as u8;
    let h3 = (height >> 24) as u8;
    proof {
        lemma_le_bytes(width);
        lemma_le_bytes(height);
    }
    vec![
        40u8, 0u8, 0u8, 0u8, w0, w1, w2, w3, h0, h1, h2, h3, 1u8, 0u8, 24u8, 0u8, 0u8, 0u8, 0u8,
        0u8, 0u8, 0u8, 0u8, 0u8, 0u8, 0u8, 0u8, 0u8, 0u8, 0u8, 0u8, 0u8, 0u8, 0u8, 0u8, 0u8, 0u8,
        0u8, 0u8, 0u8,
    ]
}

/// Truncating shifts of a 32-bit value are its base-256 digits.
proof fn lemma_le_bytes(v: u32)
    ensures
        (v as u8) as int == v as int % 256,
        ((v >> 8) as u8) as int == (v as int / 256) % 256,
        ((v >> 16) as u8) as int == (v as int / 65536) % 256,
        ((v >> 24) as u8) as int == (v as int / 16777216) % 256,
{
    assert((v as u8) == (v % 256) as u8) by (bit_vector);
    assert(((v >> 8) as u8) == ((v / 256) % 256) as u8) by (bit_vector);
    assert(((v >> 16) as u8) == ((v / 65536) % 256) as u8) by (bit_vector);
    assert(((v >> 24) as u8) == ((v / 16777216) % 256) as u8) by (bit_vector);
}

/// Bytes of padding after a row of `len` 24-bit pixels, so that each row
/// occupies a multiple of four bytes, counting from one byte short of the
/// row's end.
pub fn bmp_row_padding(len: usize) -> (r: usize)
    requires
        1 <= len,
        3 * (len as int) <= usize::MAX as int,
    ensures
        r as int == 3 - (3 * (len as int) - 1) % 4,
{
    3 - (len * 3 - 1) % 4
}

} // verus!
