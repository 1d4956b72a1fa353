//! The calls into the `gif` crate that GIF encoding makes, with what they do
//! to the bytes written so far.

use vstd::prelude::*;

verus! {

/// A `gif::Encoder` writing into a `Vec<u8>`. Verus cannot take the
/// encoder's own declaration (its bound names `std::io::Write`, which Verus
/// does not know), so it is held here, opaque.
#[verifier::external_body]
pub struct GifStream {
    encoder: gif::Encoder<Vec<u8>>,
}

#[verifier::external_type_specification]
#[verifier::external_body]
pub struct ExGifEncodingError(gif::EncodingError);

#[verifier::external_type_specification]
#[verifier::external_body]
pub struct ExIoError(std::io::Error);

/// The bytes that an encoder writing into a `Vec<u8>` has written so far
/// (what `Encoder::get_ref` would show).
pub uninterp spec fn gif_written(stream: GifStream) -> Seq<u8>;

/// The GIF89a logical screen descriptor that `Encoder::new` writes for an
/// empty global palette: signature, size, flags 0x80, background and aspect
/// bytes, then the two padding palette entries.
pub open spec fn gif_screen_header(width: u16, height: u16) -> Seq<u8> {
    seq![0x47u8, 0x49u8, 0x46u8, 0x38u8, 0x39u8, 0x61u8] + crate::bytes::le16(width)
        + crate::bytes::le16(height) + seq![0x80u8, 0u8, 0u8, 0u8, 0u8, 0u8, 0u8, 0u8, 0u8]
}

/// The NETSCAPE2.0 application extension that makes the animation loop forever.
pub open spec fn gif_loop_forever_ext() -> Seq<u8> {
    seq![0x21u8, 0xffu8, 0x0bu8] + seq![
        0x4eu8,
        0x45u8,
        0x54u8,
        0x53u8,
        0x43u8,
        0x41u8,
        0x50u8,
        0x45u8,
        0x32u8,
        0x2eu8,
        0x30u8,
    ] + seq![0x03u8, 0x01u8, 0x00u8, 0x00u8, 0x00u8]
}

/// The GIF trailer byte.
pub open spec fn gif_trailer() -> u8 {
    0x3bu8
}

/// `gif::Encoder::new` over an empty `Vec<u8>` with an empty global palette.
/// Claimed: it succeeds, having written exactly the screen descriptor and
/// padding palette of `gif_screen_header`. In the source its only error paths
/// are a palette of more than 256 colours and errors of the writer; the
/// palette is empty and the writer is a `Vec<u8>`, whose `Write` impl appends.
#[verifier::external_body]
pub(crate) fn gif_encoder_new(width: u16, height: u16) -> (r: Result<GifStream, gif::EncodingError>)
    ensures
        r is Ok,
        r matches Ok(stream) ==> gif_written(stream) == gif_screen_header(width, height),
{
    gif::Encoder::new(Vec::new(), width, height, &[]).map(|encoder| GifStream { encoder })
}

/// `gif::Encoder::set_repeat(Repeat::Infinite)`. Claimed: it succeeds,
/// having appended the NETSCAPE2.0 loop extension with a repeat count of 0
/// (its only error paths are errors of the writer, here a `Vec<u8>`).
#[verifier::external_body]
pub(crate) fn gif_set_repeat_infinite(stream: &mut GifStream) -> (r: Result<(), gif::EncodingError>)
    ensures
        r is Ok,
        gif_written(*final(stream)) == gif_written(*old(stream)) + gif_loop_forever_ext(),
{
    stream.encoder.set_repeat(gif::Repeat::Infinite)
}

/// The bytes that `gif::Encoder::write_frame` writes for the frame that
/// `gif::Frame::from_rgba_speed` builds from a `width` by `height` RGBA
/// buffer at `speed`, with its delay set to `delay_cs`: the graphic control
/// extension, the image descriptor, the local palette and the LZW data. The
/// frame depends on its arguments alone: the exact palette is sorted, and
/// NeuQuant and LZW are deterministic.
pub uninterp spec fn gif_frame_blocks(width: u16, height: u16, rgba: Seq<u8>, speed: i32, delay_cs: u16) -> Seq<u8>;

/// `gif::Frame::from_rgba_speed` on `rgba` (with the frame's delay then set
/// to `delay_cs`) and `gif::Encoder::write_frame` of that frame. The frame
/// is made here because it is only the encoder's form of the arguments.
/// `from_rgba_speed` panics unless `rgba` holds `width * height * 4` bytes and
/// `1 <= speed <= 30`. Claimed: the write succeeds and appends
/// `gif_frame_blocks` of the arguments. In the source, `write_frame` fails
/// only when the frame's index buffer is shorter than `width * height` (it
/// always has that length here), when the palette is missing or over 256
/// colours (`from_rgba_speed` always sets one of at most 256), on writer
/// errors (the writer is a `Vec<u8>`), or when reserving memory for the LZW
/// output fails; allocation is taken to succeed here, as vstd's own `Vec`
/// specifications do.
#[verifier::external_body]
pub(crate) fn gif_write_rgba_frame(
    stream: &mut GifStream,
    width: u16,
    height: u16,
    rgba: Vec<u8>,
    speed: i32,
    delay_cs: u16,
) -> (r: Result<(), gif::EncodingError>)
    requires
        rgba@.len() == width * height * 4,
        1 <= speed <= 30,
    ensures
        r is Ok,
        gif_written(*final(stream)) == gif_written(*old(stream)) + gif_frame_blocks(
            width,
            height,
            rgba@,
            speed,
            delay_cs,
        ),
{
    let mut rgba = rgba;
    let mut frame = gif::Frame::from_rgba_speed(width, height, &mut rgba, speed);
    frame.delay = delay_cs;
    stream.encoder.write_frame(&frame)
}

/// `gif::Encoder::into_inner`. Claimed: it succeeds, returning everything
/// written followed by the trailer byte (its only error paths are errors of
/// the writer, here a `Vec<u8>`, and a writer already taken, which the
/// encoder never is before this call).
#[verifier::external_body]
pub(crate) fn gif_finish(stream: GifStream) -> (r: Result<Vec<u8>, std::io::Error>)
    ensures
        r is Ok,
        r matches Ok(bytes) ==> bytes@ == gif_written(stream).push(gif_trailer()),
{
    stream.encoder.into_inner()
}

} // verus!
