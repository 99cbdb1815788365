use image::DynamicImage;
use image::GenericImage;
use vstd::prelude::*;

verus! {

#[verifier::external_type_specification]
#[verifier::external_body]
pub struct ExDynamicImage(DynamicImage);

/// The pixels of an image as 8-bit RGBA: each position inside its bounds
/// mapped to its four bytes.
pub uninterp spec fn rgba_pixels(img: DynamicImage) -> Map<(u32, u32), Seq<u8>>;

/// The image stores 8-bit RGBA pixels, so a pixel put in is kept as it is.
pub uninterp spec fn is_rgba8(img: DynamicImage) -> bool;

/// Relies on `DynamicImage::new_rgba8`: an RGBA image of the given size,
/// every byte zero. It panics when `4 * width * height` overflows `usize`.
#[verifier::external_body]
fn new_rgba8(width: u32, height: u32) -> (r: DynamicImage)
    requires
        4 * (width as int) * (height as int) <= usize::MAX,
    ensures
        is_rgba8(r),
        rgba_pixels(r) == Map::new(
            |p: (u32, u32)| p.0 < width && p.1 < height,
            |p: (u32, u32)| seq![0u8, 0u8, 0u8, 0u8],
        ),
{
    DynamicImage::new_rgba8(width, height)
}

/// Relies on `GenericImage::put_pixel` of `DynamicImage`: on an RGBA image it
/// overwrites the pixel at `(x, y)`, which must lie inside the image.
#[verifier::external_body]
fn put_pixel(img: &mut DynamicImage, x: u32, y: u32, pixel: [u8; 4])
    requires
        is_rgba8(*old(img)),
        rgba_pixels(*old(img)).dom().contains((x, y)),
    ensures
        is_rgba8(*final(img)),
        rgba_pixels(*final(img)) == rgba_pixels(*old(img)).insert((x, y), pixel@),
{
    img.put_pixel(x, y, image::Rgba(pixel))
}

/// A source of images, one for each frame number.
pub trait FrameProvider {
    fn get_frame(&mut self, frame_num: u32) -> &DynamicImage;
}

/// Side of the square blocks of the placeholder pattern.
pub const BLOCK_SIZE: u32 = 16;

/// The size of the placeholder image: the given one, or 64 by 64.
pub open spec fn placeholder_size(size: Option<(u32, u32)>) -> (u32, u32) {
    match size {
        Some(s) => s,
        None => (64, 64),
    }
}

/// The placeholder's pixel at `(x, y)`: inside the whole blocks that fit the
/// image, opaque magenta on blocks whose row and column sum to an even
/// number and transparent magenta on the others; outside them, all zero.
pub open spec fn checker_pixel(width: u32, height: u32, x: u32, y: u32) -> Seq<u8> {
    if x / BLOCK_SIZE < width / BLOCK_SIZE && y / BLOCK_SIZE < height / BLOCK_SIZE {
        if (x / BLOCK_SIZE + y / BLOCK_SIZE) % 2 == 0 {
            seq![255u8, 0u8, 255u8, 255u8]
        } else {
            seq![255u8, 0u8, 255u8, 0u8]
        }
    } else {
        seq![0u8, 0u8, 0u8, 0u8]
    }
}

pub open spec fn checkerboard(width: u32, height: u32) -> Map<(u32, u32), Seq<u8>> {
    Map::new(
        |p: (u32, u32)| p.0 < width && p.1 < height,
        |p: (u32, u32)| checker_pixel(width, height, p.0, p.1),
    )
}

/// The checkerboard with the pixels before `(x, y)` in row order painted
/// and the rest still zero.
spec fn painted_until(width: u32, height: u32, x: u32, y: u32) -> Map<(u32, u32), Seq<u8>> {
    Map::new(
        |p: (u32, u32)| p.0 < width && p.1 < height,
        |p: (u32, u32)|
            if p.1 < y || (p.1 == y && p.0 < x) {
                checker_pixel(width, height, p.0, p.1)
            } else {
                seq![0u8, 0u8, 0u8, 0u8]
            },
    )
}

/// A frame source that shows a checkerboard placeholder for every frame.
pub struct NullImageProvider {
    img: DynamicImage,
}

impl NullImageProvider {
    /// The image handed out for every frame.
    pub closed spec fn image(&self) -> DynamicImage {
        self.img
    }

    /// A placeholder of the given size (64 by 64 when none is given).
    pub fn new(size: Option<(u32, u32)>) -> (r: Self)
        requires
            4 * (placeholder_size(size).0 as int) * (placeholder_size(size).1 as int)
                <= usize::MAX,
        ensures
            is_rgba8(r.image()),
            rgba_pixels(r.image()) == checkerboard(
                placeholder_size(size).0,
                placeholder_size(size).1,
            ),
    {
        let (width, height) = match size {
            Some(s) => s,
            None => (64u32, 64u32),
        };
        let mut img = new_rgba8(width, height);
        let rows = (height / BLOCK_SIZE) * BLOCK_SIZE;
        let cols = (width / BLOCK_SIZE) * BLOCK_SIZE;
        assert(rgba_pixels(img) =~= painted_until(width, height, 0, 0));
        let mut y: u32 = 0;
        while y < rows
            invariant
                rows == (height / BLOCK_SIZE) * BLOCK_SIZE,
                cols == (width / BLOCK_SIZE) * BLOCK_SIZE,
                rows <= height,
                cols <= width,
                y <= rows,
                is_rgba8(img),
                rgba_pixels(img) == painted_until(width, height, 0, y),
            decreases rows - y,
        {
            let mut x: u32 = 0;
            while x < cols
                invariant
                    rows == (height / BLOCK_SIZE) * BLOCK_SIZE,
                    cols == (width / BLOCK_SIZE) * BLOCK_SIZE,
                    rows <= height,
                    cols <= width,
                    y < rows,
                    x <= cols,
                    is_rgba8(img),
                    rgba_pixels(img) == painted_until(width, height, x, y),
                decreases cols - x,
            {
                let fill: [u8; 4] = if (x / BLOCK_SIZE + y / BLOCK_SIZE) % 2 == 0 {
                    [255, 0, 255, 255]
                } else {
                    [255, 0, 255, 0]
                };
                assert(x / BLOCK_SIZE < width / BLOCK_SIZE);
                assert(y / BLOCK_SIZE < height / BLOCK_SIZE);
                put_pixel(&mut img, x, y, fill);
                assert(rgba_pixels(img) =~= painted_until(width, height, (x + 1) as u32, y));
                x = x + 1;
            }
            assert forall|p: (u32, u32)| p.0 >= cols implies checker_pixel(width, height, p.0, p.1)
                == seq![0u8, 0u8, 0u8, 0u8] by {}
            assert(rgba_pixels(img) =~= painted_until(width, height, 0, (y + 1) as u32));
            y = y + 1;
        }
        assert forall|p: (u32, u32)| p.1 >= rows implies checker_pixel(width, height, p.0, p.1)
            == seq![0u8, 0u8, 0u8, 0u8] by {}
        assert(rgba_pixels(img) =~= checkerboard(width, height));
        NullImageProvider { img }
    }
}

impl FrameProvider for NullImageProvider {
    fn get_frame(&mut self, frame_num: u32) -> &DynamicImage {
        &self.img
    }
}

} // verus!
