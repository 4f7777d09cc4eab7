use std::io::Cursor;

use vstd::prelude::*;

verus! {

/// A `png::Reader` over in-memory bytes. Its type is held opaquely here: the reader's
/// generic bound names `std::io::BufRead` and `std::io::Seek`, which cannot be declared.
#[verifier::external_body]
pub struct PngDecoder<'a> {
    inner: png::Reader<Cursor<&'a [u8]>>,
}

/// A decoder that has read the header of `source`.
pub struct PngReader<'a> {
    decoder: PngDecoder<'a>,
    source: &'a [u8],
}

impl<'a> PngReader<'a> {
    /// The bytes of the image being decoded.
    pub closed spec fn source(&self) -> Seq<u8> {
        self.source@
    }
}

#[verifier::external_type_specification]
#[verifier::external_body]
pub struct ExPngDecodingError(png::DecodingError);

/// What the decoder reports of the first frame of an image.
#[derive(Clone, Copy, Debug, PartialEq, Eq, Structural)]
pub struct PngFrame {
    pub width: u32,
    pub height: u32,
    /// The samples are red, green, blue and alpha.
    pub rgba: bool,
    /// Each sample is one byte.
    pub eight_bit: bool,
    /// Bytes per row of the decoded frame.
    pub line_size: usize,
}

/// Whether the header of a PNG image reads without error.
pub uninterp spec fn png_header_reads(bytes: Seq<u8>) -> bool;

/// The buffer size that the decoder asks for the frames of a PNG image, if it can tell.
pub uninterp spec fn png_buffer_size(bytes: Seq<u8>) -> Option<usize>;

/// What decoding the first frame of a PNG image into a buffer gives: the frame's layout
/// and the buffer's bytes afterwards; nothing if it fails.
pub uninterp spec fn png_decoded(bytes: Seq<u8>, buffer: Seq<u8>) -> Option<(PngFrame, Seq<u8>)>;

/// `png::Decoder::new` over the bytes, then `Decoder::read_info`: reads the header chunks.
/// Whether it succeeds depends on the bytes alone.
#[verifier::external_body]
pub(crate) fn png_read_info<'a>(bytes: &'a [u8]) -> (r: Result<PngReader<'a>, png::DecodingError>)
    ensures
        r is Ok == png_header_reads(bytes@),
        r matches Ok(reader) ==> reader.source() == bytes@,
{
    let inner = png::Decoder::new(Cursor::new(bytes)).read_info()?;
    Ok(PngReader { decoder: PngDecoder { inner }, source: bytes })
}

/// `png::Reader::output_buffer_size`: the bytes a decoded frame needs, which depends on the
/// image alone. Its source returns `None` unless the size is at most `isize::MAX`.
#[verifier::external_body]
pub(crate) fn png_output_buffer_size(reader: &PngReader) -> (size: Option<usize>)
    ensures
        size == png_buffer_size(reader.source()),
        size matches Some(n) ==> n <= isize::MAX,
{
    reader.decoder.inner.output_buffer_size()
}

/// `png::Reader::next_frame` on a reader that has read only the header: decodes the first
/// frame into `buffer` and reports its layout. What it gives depends on the image and the
/// buffer alone. The buffer keeps its length; for 8-bit RGBA output a row holds four
/// bytes per pixel, as the crate's row-length computation gives; and a decoded frame's
/// rows fit the buffer, which the crate checks against the whole image's size before it
/// decodes (a frame is never larger than the image).
#[verifier::external_body]
pub(crate) fn png_next_frame(
    reader: PngReader,
    buffer: &mut Vec<u8>,
) -> (frame: Result<PngFrame, png::DecodingError>)
    ensures
        final(buffer)@.len() == old(buffer)@.len(),
        match png_decoded(reader.source(), old(buffer)@) {
            Some((f, data)) => frame == Ok::<PngFrame, png::DecodingError>(f) && final(buffer)@ == data,
            None => frame is Err,
        },
        frame matches Ok(f) ==> (f.rgba && f.eight_bit ==> f.line_size == f.width * 4),
        frame matches Ok(f) ==> f.line_size * f.height <= old(buffer)@.len(),
{
    let mut reader = reader;
    let info = reader.decoder.inner.next_frame(buffer)?;
    Ok(PngFrame {
        width: info.width,
        height: info.height,
        rgba: matches!(info.color_type, png::ColorType::Rgba),
        eight_bit: matches!(info.bit_depth, png::BitDepth::Eight),
        line_size: info.line_size,
    })
}

/// The `Display` text of a `png::DecodingError`; nothing is stated of its content.
#[verifier::external_body]
pub(crate) fn png_error_text(error: &png::DecodingError) -> String {
    error.to_string()
}

} // verus!
