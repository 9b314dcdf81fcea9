//! The PNG container, reached through the `png` crate: streams held in memory
//! are decoded to and encoded from tightly packed 8-bit pixel rows.

use vstd::prelude::*;

verus! {

#[verifier::external_type_specification]
#[verifier::external_body]
pub struct ExDecodingError(png::DecodingError);

#[verifier::external_type_specification]
#[verifier::external_body]
pub struct ExEncodingError(png::EncodingError);

/// Why a PNG stream could not be turned into a field or an image, or an image
/// into a stream.
#[derive(Clone, Copy, Debug, PartialEq, Eq, Structural)]
pub enum PngError {
    /// The stream is malformed or uses a feature the decoder refuses.
    Decode,
    /// A header chunk of the stream pairs a colour type with a bit depth that the
    /// format does not allow.
    Header,
    /// The decoded pixels do not have the layout the caller asked for.
    Layout,
    /// The encoder refused the image.
    Encode,
}

/// The big-endian 32-bit number at `p`.
pub open spec fn be32(b: Seq<u8>, p: int) -> nat {
    (b[p] as nat) * 0x100_0000 + (b[p + 1] as nat) * 0x1_0000 + (b[p + 2] as nat) * 0x100 + (b[p + 3] as nat)
}

/// Whether the four bytes at `p` spell the chunk type `IHDR`.
pub open spec fn is_ihdr(b: Seq<u8>, p: int) -> bool {
    b[p] == 73 && b[p + 1] == 72 && b[p + 2] == 68 && b[p + 3] == 82
}

/// Whether the format allows bit depth `depth` with colour type `color`. Colour
/// types the format does not define are left to the decoder, which refuses them.
pub open spec fn depth_fits(color: u8, depth: u8) -> bool {
    if color == 0 {
        depth == 1 || depth == 2 || depth == 4 || depth == 8 || depth == 16
    } else if color == 3 {
        depth == 1 || depth == 2 || depth == 4 || depth == 8
    } else if color == 2 || color == 4 || color == 6 {
        depth == 8 || depth == 16
    } else {
        true
    }
}

/// Whether every header chunk from the chunk at `p` on has the format's fixed
/// header length of 13 bytes and, where its data is present, declares a bit
/// depth that fits its colour type. A chunk is a 4-byte length, a 4-byte type,
/// the data and a 4-byte checksum; the header data holds the bit depth at byte 8
/// and the colour type at byte 9.
pub open spec fn headers_fit_from(b: Seq<u8>, p: int) -> bool
    decreases b.len() - p,
{
    if p < 0 || p + 8 > b.len() {
        true
    } else {
        let d = p + 8;
        let next = d + be32(b, p) + 4;
        &&& (is_ihdr(b, p + 4) ==> be32(b, p) == 13 && (d + 10 > b.len() || depth_fits(b[d + 9], b[d + 8])))
        &&& (next + 8 > b.len() || headers_fit_from(b, next))
    }
}

/// Whether every header chunk of a stream, whose chunks start after the 8-byte
/// signature, is 13 bytes long and declares a bit depth that fits its colour type.
pub open spec fn headers_fit(b: Seq<u8>) -> bool {
    headers_fit_from(b, 8)
}

/// Decides `headers_fit` by walking the chunks of the stream.
pub fn png_headers_fit(bytes: &[u8]) -> (r: bool)
    ensures
        r == headers_fit(bytes@),
{
    let n = bytes.len() as u128;
    let mut p: u128 = 8;
    while p + 8 <= n
        invariant
            n == bytes@.len(),
            n <= usize::MAX,
            p <= n + 0x1_0000_000c,
            headers_fit(bytes@) == headers_fit_from(bytes@, p as int),
        decreases n + 0x1_0000_000c - p,
    {
        let q = p as usize;
        let d = q + 8;
        let len: u128 = (bytes[q] as u128) * 0x100_0000 + (bytes[q + 1] as u128) * 0x1_0000 + (bytes[q + 2] as u128)
            * 0x100 + bytes[q + 3] as u128;
        let header = bytes[q + 4] == 73 && bytes[q + 5] == 72 && bytes[q + 6] == 68 && bytes[q + 7] == 82;
        if header && len != 13 {
            return false;
        }
        if header && p + 18 <= n {
            let depth = bytes[d + 8];
            let color = bytes[d + 9];
            let fits = if color == 0 {
                depth == 1 || depth == 2 || depth == 4 || depth == 8 || depth == 16
            } else if color == 3 {
                depth == 1 || depth == 2 || depth == 4 || depth == 8
            } else if color == 2 || color == 4 || color == 6 {
                depth == 8 || depth == 16
            } else {
                true
            };
            if !fits {
                return false;
            }
        }
        p = p + 8 + len + 4;
    }
    true
}

/// What the decoder makes of a stream: width, height and packed 8-bit rows, or
/// nothing where it fails.
pub uninterp spec fn png_decoded(bytes: Seq<u8>) -> Option<(u32, u32, Seq<u8>)>;

/// The stream the encoder writes for an 8-bit RGB image, or nothing where it fails.
pub uninterp spec fn png_encoded(width: u32, height: u32, data: Seq<u8>) -> Option<Seq<u8>>;

/// Relies on png::Decoder::read_info and png::Reader::next_frame: with the
/// decoder's default transformations (palette expansion, 16-bit stripping) a
/// stream decodes to its width, height and the first frame's 8-bit rows, or
/// fails, and which of the two depends on the stream alone.
/// The decoder does not match the bit depth against the colour type and indexes
/// past its buffer on some such pairs, so streams that pair them wrongly are left
/// out; a header chunk longer than the decoder's chunk buffer would be parsed
/// from other bytes than its start, so header chunks must have their fixed length.
#[verifier::external_body]
pub(crate) fn decode_png(bytes: &[u8]) -> (r: Result<(u32, u32, Vec<u8>), png::DecodingError>)
    requires
        headers_fit(bytes@),
    ensures
        match r {
            Ok((w, h, d)) => png_decoded(bytes@) == Some((w, h, d@)),
            Err(_) => png_decoded(bytes@).is_none(),
        },
{
    let (info, mut reader) = png::Decoder::new(bytes).read_info()?;
    let mut buf = vec![0u8; info.buffer_size()];
    reader.next_frame(&mut buf)?;
    Ok((info.width, info.height, buf))
}

/// Relies on png::Encoder::write_header and png::Writer::write_image_data: an
/// 8-bit RGB image is written as a complete stream, ended when the writer is
/// dropped, or refused, and which of the two depends on the arguments alone.
/// The writer sizes its rows from the dimensions before it looks at the data, so
/// the data must hold exactly three bytes per pixel. Writing into a `Vec` does
/// not fail, so the stream is refused only for a zero dimension.
#[verifier::external_body]
pub(crate) fn encode_png(width: u32, height: u32, data: &[u8]) -> (r: Result<Vec<u8>, png::EncodingError>)
    requires
        data@.len() == 3 * width * height,
    ensures
        width > 0 && height > 0 ==> r is Ok,
        match r {
            Ok(v) => png_encoded(width, height, data@) == Some(v@),
            Err(_) => png_encoded(width, height, data@).is_none(),
        },
{
    let mut out: Vec<u8> = Vec::new();
    {
        let mut encoder = png::Encoder::new(&mut out, width, height);
        encoder.set_color(png::ColorType::RGB);
        encoder.set_depth(png::BitDepth::Eight);
        let mut writer = encoder.write_header()?;
        writer.write_image_data(data)?;
    }
    Ok(out)
}

} // verus!
