use vstd::prelude::*;
use crate::palette::{argb, spec_argb};

verus! {

/// The width, height and RGBA bytes, row by row, that `image` decodes from
/// the bytes of an image file whose name ends in `extension`, or `None` where
/// it cannot: the extension picks the format, whatever the bytes hold.
pub uninterp spec fn decoded_rgba(encoded: Seq<u8>, extension: Seq<char>) -> Option<(u32, u32, Seq<u8>)>;

/// Decodes an image as `image::open` does a file: the format comes from the
/// file name's extension (`image::ImageFormat::from_extension`, which fails
/// for an extension it does not know), and the bytes are decoded in that
/// format with `image::load_from_memory_with_format`; the image is then
/// converted with `DynamicImage::to_rgba8`, handing out the buffer's
/// dimensions and its raw bytes (`ImageBuffer::into_raw`).
/// Trusted: the result is `decoded_rgba` of the bytes and the extension, and,
/// as `to_rgba8` builds it, the raw bytes hold at least four per pixel.  What
/// the decoder produces for given bytes is not stated.
#[verifier::external_body]
fn decode_rgba(encoded: &[u8], extension: &str) -> (decoded: Option<(u32, u32, Vec<u8>)>)
    ensures
        match decoded {
            None => decoded_rgba(encoded@, extension@) is None,
            Some((w, h, px)) => {
                &&& decoded_rgba(encoded@, extension@) == Some((w, h, px@))
                &&& px@.len() >= w * h * 4
            },
        },
{
    let format = match image::ImageFormat::from_extension(extension) {
        Some(format) => format,
        None => return None,
    };
    match image::load_from_memory_with_format(encoded, format) {
        Ok(img) => {
            let pixels = img.to_rgba8();
            Some((pixels.width(), pixels.height(), pixels.into_raw()))
        },
        Err(_) => None,
    }
}

/// Too few bytes for `w * h` texels, as integer division finds it.
proof fn lemma_short_buffer(n: int, w: int, h: int)
    requires
        n >= 0,
        w > 0,
        h > 0,
        n / 4 / w < h,
    ensures
        n < w * h * 4,
{
    vstd::arithmetic::div_mod::lemma_fundamental_div_mod(n, 4);
    vstd::arithmetic::div_mod::lemma_fundamental_div_mod(n / 4, w);
    assert(n < w * h * 4) by (nonlinear_arith)
        requires
            n == 4 * (n / 4) + n % 4,
            0 <= n % 4 < 4,
            n / 4 == w * (n / 4 / w) + (n / 4) % w,
            0 <= (n / 4) % w < w,
            n / 4 / w < h,
            w > 0,
    ;
}

/// Enough bytes for `w * h` texels, as integer division finds it.
proof fn lemma_long_buffer(n: int, w: int, h: int)
    requires
        n >= 0,
        w > 0,
        h > 0,
        n / 4 / w >= h,
    ensures
        n >= w * h * 4,
{
    vstd::arithmetic::div_mod::lemma_fundamental_div_mod(n, 4);
    vstd::arithmetic::div_mod::lemma_fundamental_div_mod(n / 4, w);
    assert(n >= w * h * 4) by (nonlinear_arith)
        requires
            n == 4 * (n / 4) + n % 4,
            0 <= n % 4 < 4,
            n / 4 == w * (n / 4 / w) + (n / 4) % w,
            0 <= (n / 4) % w < w,
            n / 4 / w >= h,
            w > 0,
    ;
}

/// What a texture is: its dimensions and its RGBA bytes, row by row.
pub struct TextureState {
    pub width: nat,
    pub height: nat,
    pub rgba: Seq<u8>,
}

impl TextureState {
    /// The packed `0xAARRGGBB` colour of the texel in column `x`, row `y`,
    /// or 0 outside the texture.
    pub open spec fn texel(self, x: int, y: int) -> u32 {
        if 0 <= x < self.width && 0 <= y < self.height {
            let i = (y * self.width + x) * 4;
            spec_argb(self.rgba[i + 3], self.rgba[i], self.rgba[i + 1], self.rgba[i + 2])
        } else {
            0
        }
    }
}

/// A decoded image that the renderer samples colours from.
pub struct Texture {
    width: u32,
    height: u32,
    rgba: Vec<u8>,
}

impl View for Texture {
    type V = TextureState;

    closed spec fn view(&self) -> TextureState {
        TextureState { width: self.width as nat, height: self.height as nat, rgba: self.rgba@ }
    }
}

impl Texture {
    /// Every texture holds four bytes for each of its texels.
    #[verifier::type_invariant]
    spec fn inv(self) -> bool {
        self.rgba@.len() >= self.width * self.height * 4
    }

    /// The texture decoded from the bytes of an image file whose name ends in
    /// `extension` (without the dot), or `None` where they do not decode in
    /// the format that the extension names.
    pub fn new(encoded: &[u8], extension: &str) -> (texture: Option<Texture>)
        ensures
            match decoded_rgba(encoded@, extension@) {
                None => texture is None,
                Some((w, h, px)) => texture matches Some(t) && t@ == TextureState {
                    width: w as nat,
                    height: h as nat,
                    rgba: px,
                },
            },
    {
        match decode_rgba(encoded, extension) {
            Some((width, height, rgba)) => Texture::from_rgba(width, height, rgba),
            None => None,
        }
    }

    /// The texture with the given dimensions and RGBA bytes, row by row, or
    /// `None` where the bytes are fewer than four per texel.
    pub fn from_rgba(width: u32, height: u32, rgba: Vec<u8>) -> (texture: Option<Texture>)
        ensures
            match texture {
                Some(t) => t@ == TextureState { width: width as nat, height: height as nat, rgba: rgba@ },
                None => rgba@.len() < width * height * 4,
            },
            rgba@.len() >= width * height * 4 ==> texture is Some,
    {
        let w = width as usize;
        let h = height as usize;
        let n = rgba.len();
        if w == 0 || h == 0 {
            return Some(Texture { width, height, rgba });
        }
        // w * h * 4 <= n, computed without overflow
        if n / 4 / w < h {
            proof {
                lemma_short_buffer(n as int, w as int, h as int);
            }
            None
        } else {
            proof {
                lemma_long_buffer(n as int, w as int, h as int);
            }
            Some(Texture { width, height, rgba })
        }
    }

    /// The number of columns.
    pub fn width(&self) -> (w: u32)
        ensures
            w == self@.width,
    {
        self.width
    }

    /// The number of rows.
    pub fn height(&self) -> (h: u32)
        ensures
            h == self@.height,
    {
        self.height
    }

    /// The texel in column `x`, row `y` as `0xAARRGGBB`; 0 outside the texture.
    pub fn get_pixel(&self, x: u32, y: u32) -> (color: u32)
        ensures
            color == self@.texel(x as int, y as int),
    {
        proof {
            use_type_invariant(self);
        }
        if x >= self.width || y >= self.height {
            return 0;
        }
        proof {
            let w = self.width as int;
            let h = self.height as int;
            assert((y * w + x) * 4 + 3 < w * h * 4) by (nonlinear_arith)
                requires
                    0 <= x < w,
                    0 <= y < h,
            ;
            assert(y * w <= y * w + x);
            assert(self.rgba@.len() == self.rgba.len());
        }
        let i: usize = ((y as usize) * (self.width as usize) + (x as usize)) * 4;
        argb(self.rgba[i + 3], self.rgba[i], self.rgba[i + 1], self.rgba[i + 2])
    }
}

} // verus!
