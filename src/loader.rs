//! Turning an image file's bytes into a buffer of intensity samples.
use vstd::prelude::*;

verus! {

/// Why an image could not be turned into a frame.
#[derive(Clone, Copy, Debug, PartialEq, Eq, Structural)]
pub enum PipelineError {
    /// The bytes are not an image in a supported format.
    Decode,
    /// The number of samples does not fit the expected dimensions.
    SizeMismatch,
}

#[verifier::external_type_specification]
#[verifier::external_body]
pub struct ExDecodingError(png::DecodingError);

/// The image data that the PNG decoder produces from a file's bytes, or
/// `None` where it refuses them.
pub uninterp spec fn png_decoded(bytes: Seq<u8>) -> Option<Seq<u8>>;

/// Relies on png's `Decoder::read_info`, `Reader::output_buffer_size` and
/// `Reader::next_frame`: the first frame's data, in a buffer of the reported
/// output size, which depends on the file's bytes alone.
#[verifier::external_body]
fn png_image_data(bytes: &Vec<u8>) -> (r: Result<Vec<u8>, png::DecodingError>)
    ensures
        r matches Ok(v) ==> png_decoded(bytes@) == Some(v@),
        r is Err ==> png_decoded(bytes@) is None,
{
    let mut reader = png::Decoder::new(bytes.as_slice()).read_info()?;
    let mut buf = vec![0; reader.output_buffer_size()];
    reader.next_frame(&mut buf)?;
    Ok(buf)
}

/// Whether bit `j` (0 the least significant) of `b` is set.
pub open spec fn bit_set(b: u8, j: int) -> bool {
    (b >> (j as u8)) & 1u8 == 1u8
}

/// The samples of a buffer that packs eight pixels per byte, least
/// significant bit first: a set bit gives 255, a clear one 0.
pub open spec fn expanded(raw: Seq<u8>) -> Seq<u8> {
    Seq::new(
        raw.len() * 8,
        |k: int|
            if bit_set(raw[k / 8], k % 8) {
                255u8
            } else {
                0u8
            },
    )
}

/// Expands a buffer that packs eight pixels per byte into one sample per pixel.
pub fn expand_1bit(raw: &Vec<u8>) -> (r: Vec<u8>)
    requires
        raw@.len() * 8 <= usize::MAX,
    ensures
        r@ == expanded(raw@),
{
    let n = raw.len();
    let mut out: Vec<u8> = Vec::new();
    let mut i: usize = 0;
    while i < n
        invariant
            n == raw@.len(),
            n * 8 <= usize::MAX,
            i <= n,
            out@ =~= expanded(raw@).subrange(0, i * 8),
        decreases n - i,
    {
        let b = raw[i];
        let mut j: u8 = 0;
        while j < 8
            invariant
                n == raw@.len(),
                n * 8 <= usize::MAX,
                i < n,
                b == raw@[i as int],
                j <= 8,
                out@ =~= expanded(raw@).subrange(0, i * 8 + j),
            decreases 8 - j,
        {
            let v: u8 = if (b >> j) & 1u8 == 1u8 {
                255
            } else {
                0
            };
            proof {
                let k = i * 8 + j;
                assert(k / 8 == i && k % 8 == j);
            }
            out.push(v);
            j = j + 1;
        }
        i = i + 1;
    }
    out
}

/// The grayscale samples of an image file: one byte per pixel.
pub fn decode_grayscale(bytes: &Vec<u8>) -> (r: Result<Vec<u8>, PipelineError>)
    ensures
        match png_decoded(bytes@) {
            Some(d) => r matches Ok(v) && v@ == d,
            None => r == Err::<Vec<u8>, PipelineError>(PipelineError::Decode),
        },
{
    match png_image_data(bytes) {
        Ok(v) => Ok(v),
        Err(_) => Err(PipelineError::Decode),
    }
}

/// The samples of an image file whose data packs eight pixels per byte, least
/// significant bit first. Data too long to expand is a size mismatch.
pub fn decode_1bit(bytes: &Vec<u8>) -> (r: Result<Vec<u8>, PipelineError>)
    ensures
        match png_decoded(bytes@) {
            Some(d) => if d.len() * 8 <= usize::MAX {
                r matches Ok(v) && v@ == expanded(d)
            } else {
                r == Err::<Vec<u8>, PipelineError>(PipelineError::SizeMismatch)
            },
            None => r == Err::<Vec<u8>, PipelineError>(PipelineError::Decode),
        },
{
    match png_image_data(bytes) {
        Ok(raw) => {
            if raw.len() > usize::MAX / 8 {
                Err(PipelineError::SizeMismatch)
            } else {
                Ok(expand_1bit(&raw))
            }
        },
        Err(_) => Err(PipelineError::Decode),
    }
}

/// The sample buffer for a `width` by `height` image, given the decoder's
/// data: data of `(width * height) / 8` bytes packs eight pixels per byte and
/// is expanded; data of `width * height` bytes is kept; any other length is a
/// size mismatch.
pub fn normalize_samples(decoded: Vec<u8>, dims: (usize, usize)) -> (r: Result<Vec<u8>, PipelineError>)
    requires
        dims.0 * dims.1 <= usize::MAX,
    ensures
        decoded@.len() == (dims.0 * dims.1) / 8 ==> (r matches Ok(v) && v@ == expanded(decoded@)),
        decoded@.len() != (dims.0 * dims.1) / 8 && decoded@.len() == dims.0 * dims.1 ==> (r matches Ok(v)
            && v@ == decoded@),
        decoded@.len() != (dims.0 * dims.1) / 8 && decoded@.len() != dims.0 * dims.1 ==> r == Err::<
            Vec<u8>,
            PipelineError,
        >(PipelineError::SizeMismatch),
{
    let total = dims.0 * dims.1;
    if decoded.len() == total / 8 {
        Ok(expand_1bit(&decoded))
    } else if decoded.len() == total {
        Ok(decoded)
    } else {
        Err(PipelineError::SizeMismatch)
    }
}

/// The sample buffer of a `width` by `height` image file, in either of the
/// two layouts: decoded as grayscale, then expanded where the data turns out
/// to pack eight pixels per byte.
pub fn decode_auto(bytes: &Vec<u8>, dims: (usize, usize)) -> (r: Result<Vec<u8>, PipelineError>)
    requires
        dims.0 * dims.1 <= usize::MAX,
    ensures
        match png_decoded(bytes@) {
            Some(d) => if d.len() == (dims.0 * dims.1) / 8 {
                r matches Ok(v) && v@ == expanded(d)
            } else if d.len() == dims.0 * dims.1 {
                r matches Ok(v) && v@ == d
            } else {
                r == Err::<Vec<u8>, PipelineError>(PipelineError::SizeMismatch)
            },
            None => r == Err::<Vec<u8>, PipelineError>(PipelineError::Decode),
        },
{
    let data = decode_grayscale(bytes)?;
    normalize_samples(data, dims)
}

} // verus!
