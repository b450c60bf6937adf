//! Classifying a response body by its content type, and decoding the ones that
//! are images.
use vstd::prelude::*;
use vstd::string::*;

use crate::text::{
    char_from, chars_of, decimal, decimal_string, digit, eq_ignoring_case, find_char, same_ignoring_case,
    slice_string, trim, trimmed,
};

verus! {

// ─── Outside calls ────────────────────────────────────────────────────────────

/// A decoded image, as `image` holds it.
#[verifier::external_type_specification]
#[verifier::external_body]
pub struct ExDynamicImage(image::DynamicImage);

/// An image of at most `side` pixels to a side, whose pixels fit into `alloc` bytes.
pub open spec fn within(width: u32, height: u32, side: u32, alloc: u64) -> bool {
    &&& width <= side
    &&& height <= side
    &&& width * height <= alloc
}

/// `ImageReader::decode` under `Limits`, with the format guessed: the image and its
/// `width()` and `height()`, or the error as `anyhow` writes it with its causes. What
/// decodes keeps to the limits: `decode` hands them to `ImageDecoder::set_limits`,
/// whose implementors check both sides against them, and first takes the bytes of the
/// image, at least one to a pixel, from what may be allocated. Which bytes decode, and
/// to what, is not claimed: decoders can be registered while a process runs.
#[verifier::external_body]
fn decode_within(bytes: &[u8], side: u32, alloc: u64) -> (r: Result<
    (image::DynamicImage, u32, u32),
    String,
>)
    ensures
        r matches Ok(p) ==> within(p.1, p.2, side, alloc),
{
    let reader = image::ImageReader::new(std::io::Cursor::new(bytes)).with_guessed_format();
    let mut reader = reader.map_err(|e| format!("{:#}", anyhow::Error::new(e)))?;
    let mut limits = image::Limits::default();
    limits.max_image_width = Some(side);
    limits.max_image_height = Some(side);
    limits.max_alloc = Some(alloc);
    reader.limits(limits);
    let image = reader.decode().map_err(|e| format!("{:#}", anyhow::Error::new(e)))?;
    let (width, height) = (image.width(), image.height());
    Ok((image, width, height))
}

// ─── Content types ────────────────────────────────────────────────────────────

/// The bare type of a content type, without parameters or space around it.
pub open spec fn bare_type(content_type: Seq<char>) -> Seq<char> {
    trimmed(content_type.take(char_from(content_type, ';', 0)))
}

/// The bare type of a content type: `image/png` for `image/png; charset=binary`.
pub fn essence(content_type: &str) -> (r: String)
    ensures
        r@ == bare_type(content_type@),
{
    let v = chars_of(content_type);
    let end: usize = find_char(&v, ';', 0);
    proof {
        assert(v@.subrange(0, end as int) =~= content_type@.take(end as int));
    }
    let head = slice_string(&v, 0, end);
    trim(head.as_str())
}

/// A type under `image/` that can be decoded: any but SVG, which is markup.
pub open spec fn decodable(bare: Seq<char>) -> bool {
    &&& bare.len() > 6
    &&& same_ignoring_case(bare.take(6), "image/"@)
    &&& !same_ignoring_case(bare, "image/svg+xml"@)
}

/// Whether a body of this content type is an image to decode rather than text to
/// show.
pub fn is_renderable_image(content_type: &str) -> (r: bool)
    ensures
        r == decodable(bare_type(content_type@)),
{
    let bare = essence(content_type);
    let v = chars_of(bare.as_str());
    if v.len() <= 6 {
        return false;
    }
    let head = slice_string(&v, 0, 6);
    proof {
        assert(v@.subrange(0, 6) =~= bare@.take(6));
    }
    eq_ignoring_case(head.as_str(), "image/") && !eq_ignoring_case(bare.as_str(), "image/svg+xml")
}

// ─── Sizes ────────────────────────────────────────────────────────────────────

/// `n / unit` rounded to the nearest whole number, halves to the even one.
pub open spec fn nearest(n: nat, unit: nat) -> nat {
    let q = n / unit;
    let r = n % unit;
    if 2 * r < unit || (2 * r == unit && q % 2 == 0) {
        q
    } else {
        q + 1
    }
}

/// The spacing of double-precision numbers at `n`: 1 up to 2^53, then doubling
/// with every doubling of `n`.
pub open spec fn double_step(n: nat) -> nat
    decreases n,
{
    if n < 0x20_0000_0000_0000 {
        1
    } else {
        2 * double_step(n / 2)
    }
}

/// The double-precision number nearest to `n`.
pub open spec fn nearest_double(n: nat) -> nat {
    nearest(n, double_step(n)) * double_step(n)
}

/// `n / unit` with one decimal, rounded to the nearest tenth, halves to the even
/// one.
pub open spec fn one_decimal(n: nat, unit: nat) -> Seq<char> {
    let tenths = nearest(10 * n, unit);
    decimal(tenths / 10) + "."@ + seq![digit(tenths % 10)]
}

/// A number of bytes for people: bytes below a kilobyte, kilobytes below a
/// megabyte, megabytes above, counted in powers of 1024.
pub open spec fn size_text(bytes: nat) -> Seq<char> {
    if bytes < 1024 {
        decimal(bytes) + " B"@
    } else if bytes < 1048576 {
        one_decimal(bytes, 1024) + " KB"@
    } else {
        one_decimal(nearest_double(bytes), 1048576) + " MB"@
    }
}

fn round_to_nearest(n: u128, unit: u128) -> (r: u128)
    requires
        0 < unit <= 0x1_0000_0000_0000,
        n < 0x1_0000_0000_0000_0000_0000,
    ensures
        r == nearest(n as nat, unit as nat),
        r <= n + 1,
{
    let q: u128 = n / unit;
    let r: u128 = n % unit;
    proof {
        assert(q <= n) by (nonlinear_arith)
            requires
                q == n / unit,
                unit > 0,
        ;
    }
    if 2 * r < unit || (2 * r == unit && q % 2 == 0) {
        q
    } else {
        q + 1
    }
}

fn to_double(n: u64) -> (r: u128)
    ensures
        r == nearest_double(n as nat),
        r <= 0x2_0000_0000_0000_0000,
{
    let mut m: u128 = n as u128;
    let mut step: u128 = 1;
    while m >= 0x20_0000_0000_0000
        invariant
            step >= 1,
            step > 1 ==> m >= 0x10_0000_0000_0000,
            step * m <= n,
            double_step(n as nat) == step * double_step(m as nat),
        decreases m,
    {
        proof {
            let half = m / 2;
            assert(2 * step * half <= step * m) by (nonlinear_arith)
                requires
                    half == m / 2,
                    step >= 1,
            ;
            assert((2 * step) * half == 2 * step * half);
            assert(step * (2 * double_step((m / 2) as nat)) == (2 * step) * double_step(
                (m / 2) as nat,
            )) by (nonlinear_arith);
            assert(step <= step * m) by (nonlinear_arith)
                requires
                    m >= 1,
                    step >= 1,
            ;
        }
        m = m / 2;
        step = 2 * step;
    }
    proof {
        assert(step * 1 == step);
        if step > 1 {
            assert(step <= 0x1000) by (nonlinear_arith)
                requires
                    step * m <= n,
                    m >= 0x10_0000_0000_0000,
                    n <= 0xffff_ffff_ffff_ffff,
            ;
        }
    }
    let q: u128 = round_to_nearest(n as u128, step);
    proof {
        let whole = n / step as u64;
        assert(q * step <= n + step) by (nonlinear_arith)
            requires
                q <= (n as u128) / step + 1,
                step >= 1,
        ;
    }
    q * step
}

/// A number of bytes for people.
pub fn human_size(bytes: usize) -> (r: String)
    ensures
        r@ == size_text(bytes as nat),
{
    let n: u64 = bytes as u64;
    if n < 1024 {
        let mut r = decimal_string(n as u128);
        r.append(" B");
        r
    } else if n < 1048576 {
        let mut r = with_one_decimal(n as u128, 1024);
        r.append(" KB");
        r
    } else {
        let d: u128 = to_double(n);
        let mut r = with_one_decimal(d, 1048576);
        r.append(" MB");
        r
    }
}

fn with_one_decimal(n: u128, unit: u128) -> (r: String)
    requires
        0 < unit <= 0x1_0000_0000_0000,
        n <= 0x2_0000_0000_0000_0000,
    ensures
        r@ == one_decimal(n as nat, unit as nat),
{
    let tenths: u128 = round_to_nearest(10 * n, unit);
    let mut r = decimal_string(tenths / 10);
    r.append(".");
    let d: u8 = (tenths % 10) as u8 + 48;
    let ghost before = r@;
    r.push(d as char);
    proof {
        assert(r@ =~= before + seq![digit((tenths % 10) as nat)]);
    }
    r
}

/// The line that stands in for an image: its type, its dimensions where they are
/// known, its size.
pub open spec fn summary_text(content_type: Seq<char>, bytes: nat, dims: Option<(u32, u32)>) -> Seq<
    char,
> {
    bare_type(content_type) + (match dims {
        Some((w, h)) => " · "@ + decimal(w as nat) + "×"@ + decimal(h as nat),
        None => Seq::empty(),
    }) + " · "@ + size_text(bytes)
}

/// The line that stands in for an image in the response pane, as in
/// `image/png · 1024×768 · 42.1 KB`.
pub fn summarize(content_type: &str, bytes: usize, dims: Option<(u32, u32)>) -> (r: String)
    ensures
        r@ == summary_text(content_type@, bytes as nat, dims),
{
    let mut out = essence(content_type);
    match dims {
        Some((w, h)) => {
            out.append(" · ");
            out.append(decimal_string(w as u128).as_str());
            out.append("×");
            out.append(decimal_string(h as u128).as_str());
        },
        None => {},
    }
    out.append(" · ");
    out.append(human_size(bytes).as_str());
    proof {
        assert(out@ =~= summary_text(content_type@, bytes as nat, dims));
    }
    out
}

// ─── Decoding ─────────────────────────────────────────────────────────────────

/// The largest body that is handed to the decoder.
pub const MAX_ENCODED_BYTES: usize = 33554432;

/// The most pixels a side may have.
pub const MAX_PIXELS_PER_SIDE: u32 = 16384;

/// The most bytes decoding may allocate.
pub const MAX_ALLOC_BYTES: u64 = 268435456;

/// An image and its dimensions.
pub struct Decoded {
    pub image: image::DynamicImage,
    pub width: u32,
    pub height: u32,
}

impl Decoded {
    pub fn width(&self) -> (r: u32)
        ensures
            r == self.width,
    {
        self.width
    }

    pub fn height(&self) -> (r: u32)
        ensures
            r == self.height,
    {
        self.height
    }
}

/// Why a body is not shown as an image.
#[derive(Debug, PartialEq, Eq)]
pub enum DecodeError {
    /// The body has this many bytes, more than are handed to the decoder.
    TooLarge(usize),
    /// The decoder's own words.
    Undecodable(String),
}

impl DecodeError {
    /// The sentence that reports this error.
    pub fn message(&self) -> (r: String)
        ensures
            r@ == match self {
                DecodeError::TooLarge(n) => "image is "@ + size_text(*n as nat) + ", over the "@
                    + size_text(MAX_ENCODED_BYTES as nat) + " cap"@,
                DecodeError::Undecodable(words) => words@,
            },
    {
        match self {
            DecodeError::TooLarge(n) => {
                let mut r = "image is ".to_owned();
                r.append(human_size(*n).as_str());
                r.append(", over the ");
                r.append(human_size(MAX_ENCODED_BYTES).as_str());
                r.append(" cap");
                r
            },
            DecodeError::Undecodable(words) => words.clone(),
        }
    }
}

/// What is shown for a body once the decoder has spoken: the image it made with its
/// dimensions, or its words.
pub fn from_decoder(outcome: Result<(image::DynamicImage, u32, u32), String>) -> (r: Result<
    Decoded,
    DecodeError,
>)
    ensures
        match outcome {
            Ok((image, w, h)) => r matches Ok(d) && d.image == image && d.width == w && d.height
                == h,
            Err(words) => r matches Err(DecodeError::Undecodable(t)) && t@ == words@,
        },
{
    match outcome {
        Ok(p) => Ok(Decoded { image: p.0, width: p.1, height: p.2 }),
        Err(words) => Err(DecodeError::Undecodable(words)),
    }
}

/// Decodes an image body under explicit limits. The format is guessed from the
/// bytes: the header is what a server claims, the bytes are what it sent. A body over
/// the cap is refused unread, and only such a body; whether another decodes is the
/// decoder's to say.
pub fn decode(bytes: &[u8]) -> (r: Result<Decoded, DecodeError>)
    ensures
        bytes@.len() > MAX_ENCODED_BYTES ==> (r matches Err(DecodeError::TooLarge(n)) && n
            == bytes@.len()),
        bytes@.len() <= MAX_ENCODED_BYTES ==> match r {
            Ok(d) => within(d.width, d.height, MAX_PIXELS_PER_SIDE, MAX_ALLOC_BYTES),
            Err(e) => e is Undecodable,
        },
{
    if bytes.len() > MAX_ENCODED_BYTES {
        return Err(DecodeError::TooLarge(bytes.len()));
    }
    from_decoder(decode_within(bytes, MAX_PIXELS_PER_SIDE, MAX_ALLOC_BYTES))
}

} // verus!
