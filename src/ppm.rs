use vstd::prelude::*;

verus! {

/// ASCII `0`.
pub const ASCII_ZERO: u8 = 48;

/// ASCII `-`.
pub const ASCII_MINUS: u8 = 45;

/// ASCII space.
pub const ASCII_SPACE: u8 = 32;

/// ASCII line feed.
pub const ASCII_NEWLINE: u8 = 10;

/// ASCII code of the digit `d` (`0 <= d < 10`).
pub open spec fn digit_byte(d: nat) -> u8 {
    (ASCII_ZERO as nat + d) as u8
}

/// Decimal digits of `n`, most significant first, without leading zeros
/// (`0` is written as a single digit).
pub open spec fn digits(n: nat) -> Seq<u8>
    decreases n,
{
    if n < 10 {
        seq![digit_byte(n)]
    } else {
        digits(n / 10).push(digit_byte(n % 10))
    }
}

/// Decimal text of an integer, with a leading `-` when it is negative.
pub open spec fn decimal(n: int) -> Seq<u8> {
    if n < 0 {
        seq![ASCII_MINUS] + digits((-n) as nat)
    } else {
        digits(n as nat)
    }
}

/// Appends the decimal digits of `n` to `out`.
fn push_digits(out: &mut Vec<u8>, n: u64)
    ensures
        final(out)@ == old(out)@ + digits(n as nat),
    decreases n,
{
    if n >= 10 {
        push_digits(out, n / 10);
    }
    out.push(ASCII_ZERO + (n % 10) as u8);
    proof {
        if n >= 10 {
            assert(old(out)@ + digits(n as nat) =~= (old(out)@ + digits((n / 10) as nat)).push(
                digit_byte((n % 10) as nat),
            ));
        } else {
            assert(old(out)@ + digits(n as nat) =~= old(out)@.push(digit_byte(n as nat)));
        }
    }
}

/// Appends the decimal text of `n` to `out`.
fn push_decimal(out: &mut Vec<u8>, n: i64)
    ensures
        final(out)@ == old(out)@ + decimal(n as int),
{
    if n < 0 {
        out.push(ASCII_MINUS);
        let magnitude: u64 = (-(n + 1)) as u64 + 1;
        push_digits(out, magnitude);
        assert(old(out)@ + decimal(n as int) =~= old(out)@.push(ASCII_MINUS) + digits(
            (-n) as nat,
        ));
    } else {
        push_digits(out, n as u64);
    }
}

/// ASCII `P`.
pub const ASCII_P: u8 = 80;

/// ASCII `3`.
pub const ASCII_THREE: u8 = 51;

/// The largest channel value that a frame declares.
pub const MAX_CHANNEL: u64 = 255;

/// Red, green and blue channel values of one pixel.
pub type Rgb = (i64, i64, i64);

/// Why a frame could not be encoded.
#[derive(PartialEq, Eq, Structural, Debug, Clone, Copy)]
pub enum FrameError {
    /// The width or the height is zero.
    EmptyFrame,
    /// The number of pixels is not width times height.
    PixelCount,
}

/// The text of one pixel: its three channels in decimal, separated by spaces.
pub open spec fn pixel_text(p: Rgb) -> Seq<u8> {
    decimal(p.0 as int) + seq![ASCII_SPACE] + decimal(p.1 as int) + seq![ASCII_SPACE] + decimal(
        p.2 as int,
    )
}

/// The header of a plain-text PPM frame: `P3`, then `<width> <height>`,
/// then the largest channel value, on three lines (no line feed after the last).
pub open spec fn header_text(width: nat, height: nat) -> Seq<u8> {
    seq![ASCII_P, ASCII_THREE, ASCII_NEWLINE] + digits(width) + seq![ASCII_SPACE] + digits(height)
        + seq![ASCII_NEWLINE] + digits(MAX_CHANNEL as nat)
}

/// One line per pixel, in the order given, each ended by a line feed.
pub open spec fn pixel_rows(pixels: Seq<Rgb>) -> Seq<u8>
    decreases pixels.len(),
{
    if pixels.len() == 0 {
        Seq::empty()
    } else {
        pixel_rows(pixels.drop_last()) + pixel_text(pixels.last()) + seq![ASCII_NEWLINE]
    }
}

/// A whole frame: the header line by line, then the pixels in raster order.
pub open spec fn frame_text(width: nat, height: nat, pixels: Seq<Rgb>) -> Seq<u8> {
    header_text(width, height) + seq![ASCII_NEWLINE] + pixel_rows(pixels)
}

/// Appends the text of one pixel to `out`.
fn push_pixel(out: &mut Vec<u8>, p: Rgb)
    ensures
        final(out)@ == old(out)@ + pixel_text(p),
{
    push_decimal(out, p.0);
    out.push(ASCII_SPACE);
    push_decimal(out, p.1);
    out.push(ASCII_SPACE);
    push_decimal(out, p.2);
    assert(final(out)@ =~= old(out)@ + pixel_text(p));
}

/// The text of one pixel, as a frame holds it (without the line feed).
pub fn pixel_line(r: i64, g: i64, b: i64) -> (line: Vec<u8>)
    ensures
        line@ == pixel_text((r, g, b)),
{
    let mut line: Vec<u8> = Vec::new();
    push_pixel(&mut line, (r, g, b));
    assert(line@ =~= pixel_text((r, g, b)));
    line
}

/// The header of a frame of `width` by `height` pixels (without the final line feed).
pub fn ppm_header(width: usize, height: usize) -> (header: Vec<u8>)
    ensures
        header@ == header_text(width as nat, height as nat),
{
    let mut header: Vec<u8> = Vec::new();
    header.push(ASCII_P);
    header.push(ASCII_THREE);
    header.push(ASCII_NEWLINE);
    push_digits(&mut header, width as u64);
    header.push(ASCII_SPACE);
    push_digits(&mut header, height as u64);
    header.push(ASCII_NEWLINE);
    push_digits(&mut header, MAX_CHANNEL);
    assert(header@ =~= header_text(width as nat, height as nat));
    header
}

/// Encodes a frame of `width` by `height` pixels, given in raster order
/// (rows top to bottom, each row left to right), as plain-text PPM.
pub fn encode_ppm(width: usize, height: usize, pixels: &Vec<Rgb>) -> (r: Result<
    Vec<u8>,
    FrameError,
>)
    ensures
        match r {
            Ok(text) => {
                &&& width > 0 && height > 0
                &&& pixels@.len() == width * height
                &&& text@ == frame_text(width as nat, height as nat, pixels@)
            },
            Err(e) => e == (if width == 0 || height == 0 {
                FrameError::EmptyFrame
            } else {
                FrameError::PixelCount
            }) && !(width > 0 && height > 0 && pixels@.len() == width * height),
        },
{
    if width == 0 || height == 0 {
        return Err(FrameError::EmptyFrame);
    }
    let n = pixels.len();
    let fits = match width.checked_mul(height) {
        Some(count) => count == n,
        None => false,
    };
    if !fits {
        return Err(FrameError::PixelCount);
    }
    let mut text = ppm_header(width, height);
    text.push(ASCII_NEWLINE);
    let mut k: usize = 0;
    while k < pixels.len()
        invariant
            k <= pixels@.len(),
            text@ == header_text(width as nat, height as nat) + seq![ASCII_NEWLINE] + pixel_rows(
                pixels@.take(k as int),
            ),
        decreases pixels@.len() - k,
    {
        push_pixel(&mut text, pixels[k]);
        text.push(ASCII_NEWLINE);
        proof {
            let taken = pixels@.take(k as int + 1);
            assert(taken.drop_last() =~= pixels@.take(k as int));
            assert(taken.last() == pixels@[k as int]);
            assert(text@ =~= header_text(width as nat, height as nat) + seq![ASCII_NEWLINE]
                + pixel_rows(taken));
        }
        k = k + 1;
    }
    assert(pixels@.take(pixels@.len() as int) =~= pixels@);
    Ok(text)
}

/// Encoding a frame depends on nothing but its dimensions and pixels: two
/// encodings of the same frame are byte for byte the same text.
pub proof fn lemma_encoding_deterministic(
    width: nat,
    height: nat,
    first: Seq<Rgb>,
    second: Seq<Rgb>,
)
    requires
        first == second,
    ensures
        frame_text(width, height, first) == frame_text(width, height, second),
{
}

/// Pixel lines encode independently: the text of a run of pixels is the text
/// of its first part followed by the text of the rest, so scanlines encoded
/// apart and joined in raster order give the frame's own pixel text.
pub proof fn lemma_rows_concat(front: Seq<Rgb>, back: Seq<Rgb>)
    ensures
        pixel_rows(front + back) == pixel_rows(front) + pixel_rows(back),
    decreases back.len(),
{
    if back.len() == 0 {
        assert(front + back =~= front);
        assert(pixel_rows(front) + pixel_rows(back) =~= pixel_rows(front));
    } else {
        let whole = front + back;
        assert(whole.drop_last() =~= front + back.drop_last());
        assert(whole.last() == back.last());
        lemma_rows_concat(front, back.drop_last());
        assert(pixel_rows(whole) =~= pixel_rows(front) + pixel_rows(back));
    }
}

} // verus!
