//! The thumbnail cache: where a thumbnail is kept, how the source image is
//! cut to a square, and the rendering of the JPEG that is stored there.
use vstd::prelude::*;

verus! {

/// Path separators become `_` and dots become `-`.
pub open spec fn slug_char(c: char) -> char {
    if c == '/' {
        '_'
    } else if c == '.' {
        '-'
    } else {
        c
    }
}

/// A file-name-safe form of a path.
pub open spec fn slug(s: Seq<char>) -> Seq<char> {
    s.map_values(|c: char| slug_char(c))
}

pub open spec fn digit_char(d: int) -> char {
    if d == 0 {
        '0'
    } else if d == 1 {
        '1'
    } else if d == 2 {
        '2'
    } else if d == 3 {
        '3'
    } else if d == 4 {
        '4'
    } else if d == 5 {
        '5'
    } else if d == 6 {
        '6'
    } else if d == 7 {
        '7'
    } else if d == 8 {
        '8'
    } else {
        '9'
    }
}

/// The decimal digits of `n`, without leading zeros.
pub open spec fn decimal(n: nat) -> Seq<char>
    decreases n,
{
    if n < 10 {
        seq![digit_char(n as int)]
    } else {
        decimal(n / 10).push(digit_char((n % 10) as int))
    }
}

/// `<root>/<slug of path>_w<width>_h<height>.jpg`
pub open spec fn cache_file_name(root: Seq<char>, path: Seq<char>, width: nat, height: nat) -> Seq<char> {
    root + seq!['/'] + slug(path) + seq!['_', 'w'] + decimal(width) + seq!['_', 'h'] + decimal(height)
        + seq!['.', 'j', 'p', 'g']
}

/// Relies on `String::push`, which appends one character.
#[verifier::external_body]
fn push_char(s: &mut String, c: char)
    ensures
        final(s)@ == old(s)@.push(c),
{
    s.push(c)
}

fn digit(d: u32) -> (c: char)
    requires
        d < 10,
    ensures
        c == digit_char(d as int),
{
    if d == 0 {
        '0'
    } else if d == 1 {
        '1'
    } else if d == 2 {
        '2'
    } else if d == 3 {
        '3'
    } else if d == 4 {
        '4'
    } else if d == 5 {
        '5'
    } else if d == 6 {
        '6'
    } else if d == 7 {
        '7'
    } else if d == 8 {
        '8'
    } else {
        '9'
    }
}

fn push_decimal(s: &mut String, n: u32)
    ensures
        final(s)@ == old(s)@ + decimal(n as nat),
    decreases n,
{
    if n >= 10 {
        push_decimal(s, n / 10);
    }
    push_char(s, digit(n % 10));
    assert(old(s)@ + decimal(n as nat) == if n >= 10 {
        old(s)@ + decimal((n / 10) as nat) + seq![digit_char((n % 10) as int)]
    } else {
        old(s)@ + seq![digit_char(n as int)]
    });
}

fn push_slug(s: &mut String, path: &str)
    ensures
        final(s)@ == old(s)@ + slug(path@),
{
    let n = path.unicode_len();
    let mut i: usize = 0;
    while i < n
        invariant
            n == path@.len(),
            i <= n,
            s@ == old(s)@ + slug(path@.subrange(0, i as int)),
        decreases n - i,
    {
        let c = path.get_char(i);
        let d = if c == '/' {
            '_'
        } else if c == '.' {
            '-'
        } else {
            c
        };
        push_char(s, d);
        assert(slug(path@.subrange(0, i + 1)) == slug(path@.subrange(0, i as int)).push(d));
        i += 1;
    }
    assert(path@.subrange(0, n as int) == path@);
}

/// Where the thumbnail of `image_path` at the given size is kept under
/// `cache_path`. The name depends on these three values alone.
pub fn cache_file_path(cache_path: &str, image_path: &str, thumb_width: u32, thumb_height: u32) -> (r: String)
    ensures
        r@ == cache_file_name(cache_path@, image_path@, thumb_width as nat, thumb_height as nat),
{
    let mut s = String::from_str(cache_path);
    push_char(&mut s, '/');
    push_slug(&mut s, image_path);
    push_char(&mut s, '_');
    push_char(&mut s, 'w');
    push_decimal(&mut s, thumb_width);
    push_char(&mut s, '_');
    push_char(&mut s, 'h');
    push_decimal(&mut s, thumb_height);
    push_char(&mut s, '.');
    push_char(&mut s, 'j');
    push_char(&mut s, 'p');
    push_char(&mut s, 'g');
    assert(s@ == cache_file_name(cache_path@, image_path@, thumb_width as nat, thumb_height as nat));
    s
}

/// What a thumbnail request does once the cache has been looked at.
#[derive(Clone, Debug)]
pub enum CacheAction {
    /// The cache file exists: serve it as it is.
    Serve(String),
    /// The cache file is missing: render the thumbnail and store it here.
    Render(String),
}

/// Decides a thumbnail request from whether the cache file for these
/// arguments already exists (`cached`). Both actions name the same cache file,
/// so a repeated request finds what the first one stored and never renders it
/// again.
pub fn plan_thumbnail(cache_path: &str, image_path: &str, thumb_width: u32, thumb_height: u32, cached: bool) -> (r:
    CacheAction)
    ensures
        match r {
            CacheAction::Serve(p) => cached && p@ == cache_file_name(
                cache_path@,
                image_path@,
                thumb_width as nat,
                thumb_height as nat,
            ),
            CacheAction::Render(p) => !cached && p@ == cache_file_name(
                cache_path@,
                image_path@,
                thumb_width as nat,
                thumb_height as nat,
            ),
        },
{
    let target = cache_file_path(cache_path, image_path, thumb_width, thumb_height);
    if cached {
        CacheAction::Serve(target)
    } else {
        CacheAction::Render(target)
    }
}

/// For one root and one size, two source paths share a cache file exactly
/// when their slugs agree.
pub proof fn lemma_cache_name_collision(root: Seq<char>, p1: Seq<char>, p2: Seq<char>, width: nat, height: nat)
    ensures
        cache_file_name(root, p1, width, height) == cache_file_name(root, p2, width, height) <==> slug(p1)
            == slug(p2),
{
    let a = cache_file_name(root, p1, width, height);
    let b = cache_file_name(root, p2, width, height);
    if a == b {
        let start: int = root.len() as int + 1;
        let tail = seq!['_', 'w'] + decimal(width) + seq!['_', 'h'] + decimal(height) + seq!['.', 'j', 'p', 'g'];
        assert(a == root + seq!['/'] + slug(p1) + tail);
        assert(b == root + seq!['/'] + slug(p2) + tail);
        assert(a.len() == root.len() + 1 + slug(p1).len() + tail.len());
        assert(b.len() == root.len() + 1 + slug(p2).len() + tail.len());
        assert(slug(p1).len() == slug(p2).len());
        assert(a.subrange(start, start + slug(p1).len()) == slug(p1));
        assert(b.subrange(start, start + slug(p2).len()) == slug(p2));
    }
}

/// Wherever the two paths differ, they do not hold `/` against `_`, nor
/// `.` against `-`: the only pairs that the slug folds together.
pub open spec fn fillers_agree(p1: Seq<char>, p2: Seq<char>) -> bool {
    forall|i: int|
        0 <= i < p1.len() && i < p2.len() ==> !((#[trigger] p1[i] == '/' && #[trigger] p2[i] == '_') || (p1[i] == '_'
            && p2[i] == '/') || (p1[i] == '.' && p2[i] == '-') || (p1[i] == '-' && p2[i] == '.'))
}

/// Distinct source paths whose fillers agree never share a cache file.
pub proof fn lemma_cache_name_injective(root: Seq<char>, p1: Seq<char>, p2: Seq<char>, width: nat, height: nat)
    requires
        p1 != p2,
        fillers_agree(p1, p2),
    ensures
        cache_file_name(root, p1, width, height) != cache_file_name(root, p2, width, height),
{
    lemma_cache_name_collision(root, p1, p2, width, height);
    if slug(p1) == slug(p2) {
        assert(p1.len() == p2.len());
        assert forall|i: int| 0 <= i < p1.len() implies p1[i] == p2[i] by {
            assert(slug(p1)[i] == slug(p2)[i]);
        }
        assert(p1 == p2);
    }
}

/// The square cut out of the source image before it is scaled.
#[derive(Clone, Copy, Debug, PartialEq, Eq, Structural)]
pub struct CropBox {
    pub x: u32,
    pub y: u32,
    pub side: u32,
}

/// The centred square of a `width` x `height` picture.
pub open spec fn square_crop(width: u32, height: u32) -> CropBox {
    if width >= height {
        CropBox { x: ((width - height) / 2) as u32, y: 0, side: height }
    } else {
        CropBox { x: 0, y: ((height - width) / 2) as u32, side: width }
    }
}

/// The largest square centred in a `width` x `height` image: its side is the
/// shorter dimension, it spans the whole of the shorter axis and is centred
/// on the longer one.
pub fn centered_square(width: u32, height: u32) -> (r: CropBox)
    ensures
        r == square_crop(width, height),
        r.side == if width <= height { width } else { height },
        width >= height ==> r.x == (width - height) / 2 && r.y == 0,
        width < height ==> r.x == 0 && r.y == (height - width) / 2,
        r.x + r.side <= width,
        r.y + r.side <= height,
{
    if width >= height {
        CropBox { x: (width - height) / 2, y: 0, side: height }
    } else {
        CropBox { x: 0, y: (height - width) / 2, side: width }
    }
}

/// A picture as image's 8-bit RGB buffers hold it: width, height, and three
/// bytes per pixel, row by row.
pub open spec fn is_rgb8(width: u32, height: u32, pixels: Seq<u8>) -> bool {
    pixels.len() == 3 * width * height
}

/// The 8-bit RGB picture that a file decodes to, or `None` where it does not
/// decode.
pub uninterp spec fn decoded_rgb8(file: Seq<u8>) -> Option<(u32, u32, Seq<u8>)>;

/// Relies on image's `load_from_memory`, whose result is converted with
/// `to_rgb8`; the converted buffer holds three bytes per pixel.
#[verifier::external_body]
fn decode_rgb8(file: &[u8]) -> (r: Option<(u32, u32, Vec<u8>)>)
    ensures
        match r {
            None => decoded_rgb8(file@) is None,
            Some((w, h, p)) => decoded_rgb8(file@) == Some((w, h, p@)) && is_rgb8(w, h, p@),
        },
{
    let img = image::load_from_memory(file).ok()?.to_rgb8();
    let (w, h) = img.dimensions();
    Some((w, h, img.into_raw()))
}

/// The `side` x `side` square at (`x`, `y`) of a `width`-wide RGB picture:
/// byte `c` of pixel (`i`, `j`) of the square is byte `c` of pixel
/// (`x + i`, `y + j`) of the picture.
pub open spec fn cropped_rgb8(width: u32, pixels: Seq<u8>, x: u32, y: u32, side: u32) -> Seq<u8> {
    Seq::new(
        (3 * side * side) as nat,
        |k: int| pixels[3 * ((y as int + (k / 3) / (side as int)) * width as int + x as int + (k / 3) % (side as int)) + k % 3],
    )
}

/// Relies on image's `imageops::crop_imm`, which copies the box out of the
/// picture pixel by pixel; a box inside the picture is kept whole.
#[verifier::external_body]
fn crop_rgb8(width: u32, height: u32, pixels: &[u8], b: CropBox) -> (r: Vec<u8>)
    requires
        is_rgb8(width, height, pixels@),
        b.x + b.side <= width,
        b.y + b.side <= height,
    ensures
        r@ == cropped_rgb8(width, pixels@, b.x, b.y, b.side),
{
    let img = image::RgbImage::from_raw(width, height, pixels.to_vec()).unwrap();
    image::imageops::crop_imm(&img, b.x, b.y, b.side, b.side).to_image().into_raw()
}

/// An RGB picture scaled to fit a box, keeping its aspect ratio.
pub uninterp spec fn scaled_rgb8(width: u32, height: u32, pixels: Seq<u8>, box_width: u32, box_height: u32) -> (
    u32,
    u32,
    Seq<u8>,
);

/// Relies on image's `DynamicImage::thumbnail`: it computes both new sides by
/// one formula from the ratio of box to picture (so a square stays square),
/// rounds to the nearest pixel (so a side of the box is never exceeded),
/// never goes below one pixel, and resamples into a buffer of that size.
#[verifier::external_body]
fn scale_rgb8(width: u32, height: u32, pixels: Vec<u8>, box_width: u32, box_height: u32) -> (r: (u32, u32, Vec<u8>))
    requires
        is_rgb8(width, height, pixels@),
        width > 0,
        height > 0,
    ensures
        (r.0, r.1, r.2@) == scaled_rgb8(width, height, pixels@, box_width, box_height),
        is_rgb8(r.0, r.1, r.2@),
        r.0 >= 1 && r.1 >= 1,
        box_width >= 1 ==> r.0 <= box_width,
        box_height >= 1 ==> r.1 <= box_height,
        width == height ==> r.0 == r.1,
{
    let img = image::RgbImage::from_raw(width, height, pixels).unwrap();
    let out = image::DynamicImage::ImageRgb8(img).thumbnail(box_width, box_height).to_rgb8();
    let (w, h) = out.dimensions();
    (w, h, out.into_raw())
}

/// The JPEG encoding of an RGB picture, or `None` where the encoder refuses it.
pub uninterp spec fn jpeg_of(width: u32, height: u32, pixels: Seq<u8>) -> Option<Seq<u8>>;

pub open spec fn bytes_view(r: Option<Vec<u8>>) -> Option<Seq<u8>> {
    match r {
        Some(v) => Some(v@),
        None => None,
    }
}

/// Relies on image's `ImageBuffer::write_to` with the JPEG format, into memory:
/// writing to memory does not fail, and the JPEG encoder refuses an 8-bit RGB
/// picture only where a side exceeds 65535 pixels.
#[verifier::external_body]
fn encode_jpeg_rgb8(width: u32, height: u32, pixels: &[u8]) -> (r: Option<Vec<u8>>)
    requires
        is_rgb8(width, height, pixels@),
    ensures
        bytes_view(r) == jpeg_of(width, height, pixels@),
        1 <= width <= 65535 && 1 <= height <= 65535 ==> r is Some,
{
    let img = image::ImageBuffer::<image::Rgb<u8>, &[u8]>::from_raw(width, height, pixels).unwrap();
    let mut out = std::io::Cursor::new(Vec::new());
    img.write_to(&mut out, image::ImageFormat::Jpeg).ok()?;
    Some(out.into_inner())
}

/// The box a square of `side` pixels is scaled into: the requested box, but
/// never larger than the square itself, so a thumbnail is never enlarged.
pub open spec fn clamped_box(side: u32, box_width: u32, box_height: u32) -> (u32, u32) {
    (if box_width <= side { box_width } else { side }, if box_height <= side { box_height } else { side })
}

/// The thumbnail of a source file: its picture, cut to the centred square,
/// scaled down to fit the box and encoded as JPEG; `None` where the source
/// does not decode, has no pixels, or the encoder refuses the result.
pub open spec fn thumbnail_of(source: Seq<u8>, box_width: u32, box_height: u32) -> Option<Seq<u8>> {
    match decoded_rgb8(source) {
        None => None,
        Some((w, h, p)) => if w == 0 || h == 0 {
            None
        } else {
            let c = square_crop(w, h);
            let b = clamped_box(c.side, box_width, box_height);
            let scaled = scaled_rgb8(c.side, c.side, cropped_rgb8(w, p, c.x, c.y, c.side), b.0, b.1);
            jpeg_of(scaled.0, scaled.1, scaled.2)
        },
    }
}

/// Renders the thumbnail of an image file held in memory: the centred square
/// of the source (see `centered_square`), scaled down to fit `thumb_width` x
/// `thumb_height`, as JPEG bytes, whatever the source format. It succeeds on
/// every source that decodes to a picture with pixels, for a box of 1 to
/// 65535 pixels a side.
pub fn render_thumbnail(source: &Vec<u8>, thumb_width: u32, thumb_height: u32) -> (r: Option<Vec<u8>>)
    ensures
        bytes_view(r) == thumbnail_of(source@, thumb_width, thumb_height),
        (match decoded_rgb8(source@) {
            Some((w, h, p)) => w > 0 && h > 0,
            None => false,
        }) && 1 <= thumb_width <= 65535 && 1 <= thumb_height <= 65535 ==> r is Some,
{
    let (width, height, pixels) = match decode_rgb8(source.as_slice()) {
        Some(d) => d,
        None => return None,
    };
    if width == 0 || height == 0 {
        return None;
    }
    let c = centered_square(width, height);
    let square = crop_rgb8(width, height, pixels.as_slice(), c);
    let box_width = if thumb_width <= c.side { thumb_width } else { c.side };
    let box_height = if thumb_height <= c.side { thumb_height } else { c.side };
    proof {
        assert(square@.len() == 3 * c.side * c.side) by (nonlinear_arith)
            requires
                square@.len() == (3 * c.side * c.side) as nat,
                c.side >= 0,
        ;
    }
    let (w, h, scaled) = scale_rgb8(c.side, c.side, square, box_width, box_height);
    encode_jpeg_rgb8(w, h, scaled.as_slice())
}

} // verus!
