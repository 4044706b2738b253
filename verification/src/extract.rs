//! The integer parts of reading an ordered palette off a wallpaper: the
//! border colour buckets, the foreground pixels of each column, the widest
//! foreground region, and the median colour of each slice of it.

use vstd::prelude::*;
use crate::palette::{longest_run, is_first_longest_run, median, spec_median, Rgb};
use std::collections::HashMap;
use crate::text::ascii_lower;

verus! {

/// An RGB image: `pixels` holds `width * height` colours row by row, the
/// pixel at column `x` and row `y` at index `y * width + x`.
pub struct Raster {
    pub width: u32,
    pub height: u32,
    pub pixels: Vec<Rgb>,
}

impl Raster {
    /// The pixel vector holds exactly one colour per position.
    pub open spec fn wf(&self) -> bool {
        self.pixels@.len() == self.width * self.height
    }
}

/// An image as the `image` crate decodes it, at its own size and pixel
/// type. Opaque here: the library reads it only through `resize_to_raster`.
#[verifier::external_type_specification]
#[verifier::external_body]
pub struct ExDynamicImage(image::DynamicImage);

/// An image file format of the `image` crate. Opaque here.
#[verifier::external_type_specification]
#[verifier::external_body]
pub struct ExImageFormat(image::ImageFormat);

/// The width of the working raster that palettes are read off.
pub const WORKING_WIDTH: u32 = 224;

/// The height of the working raster that palettes are read off.
pub const WORKING_HEIGHT: u32 = 112;

/// The extension that std's `Path::extension` reads off the path `path`:
/// the part of its last component after the final `.`, where there is one.
pub uninterp spec fn path_extension(path: Seq<char>) -> Option<Seq<char>>;

/// An extension, in any ASCII letter case, that names an image format of the
/// `image` crate.
pub open spec fn is_image_extension(ext: Seq<char>) -> bool {
    let e = ext.map_values(|c: char| ascii_lower(c));
    ||| e == seq!['a', 'v', 'i', 'f']
    ||| e == seq!['j', 'p', 'g']
    ||| e == seq!['j', 'p', 'e', 'g']
    ||| e == seq!['j', 'f', 'i', 'f']
    ||| e == seq!['p', 'n', 'g']
    ||| e == seq!['a', 'p', 'n', 'g']
    ||| e == seq!['g', 'i', 'f']
    ||| e == seq!['w', 'e', 'b', 'p']
    ||| e == seq!['t', 'i', 'f']
    ||| e == seq!['t', 'i', 'f', 'f']
    ||| e == seq!['t', 'g', 'a']
    ||| e == seq!['d', 'd', 's']
    ||| e == seq!['b', 'm', 'p']
    ||| e == seq!['i', 'c', 'o']
    ||| e == seq!['h', 'd', 'r']
    ||| e == seq!['e', 'x', 'r']
    ||| e == seq!['p', 'b', 'm']
    ||| e == seq!['p', 'a', 'm']
    ||| e == seq!['p', 'p', 'm']
    ||| e == seq!['p', 'g', 'm']
    ||| e == seq!['p', 'n', 'm']
    ||| e == seq!['f', 'f']
    ||| e == seq!['q', 'o', 'i']
}

/// The extension of `path` names an image format of the `image` crate.
pub open spec fn names_image_format(path: Seq<char>) -> bool {
    match path_extension(path) {
        Some(ext) => is_image_extension(ext),
        None => false,
    }
}

/// An image format, with the path whose extension named it.
pub struct PathFormat {
    pub format: image::ImageFormat,
    pub path: Ghost<Seq<char>>,
}

/// A decoded image, with the bytes it was decoded from and the path whose
/// extension named its format.
pub struct DecodedImage {
    pub image: image::DynamicImage,
    pub source: Ghost<Seq<u8>>,
    pub path: Ghost<Seq<char>>,
}

/// A wallpaper's working raster, with the bytes and the path it was read
/// from.
pub struct WorkingRaster {
    pub raster: Raster,
    pub source: Ghost<Seq<u8>>,
    pub path: Ghost<Seq<char>>,
}

/// The image format that the extension of `path` names, by
/// `image::ImageFormat::from_path` (the extension as `Path::extension` gives
/// it, looked up by `ImageFormat::from_extension` in any ASCII letter case),
/// or that function's error as text. Which format each extension names is
/// not stated here.
#[verifier::external_body]
fn format_of_path(path: &str) -> (r: Result<PathFormat, String>)
    ensures
        r is Ok <==> (path_extension(path@) is Some && is_image_extension(path_extension(path@)->0)),
        r matches Ok(f) ==> f.path@ == path@,
{
    match image::ImageFormat::from_path(path) {
        Ok(format) => Ok(PathFormat { format, path: Ghost(path@) }),
        Err(error) => Err(error.to_string()),
    }
}

/// Decodes `bytes` as an image in the format `format` holds, with
/// `image::load_from_memory_with_format`, or gives its error as text. The
/// image comes from `bytes`; whether they decode, and to what, is not stated
/// here: the JPEG decoder takes different code paths on different machines.
#[verifier::external_body]
fn decode_image(bytes: &[u8], format: PathFormat) -> (r: Result<DecodedImage, String>)
    ensures
        r matches Ok(d) ==> d.source@ == bytes@ && d.path@ == format.path@,
{
    match image::load_from_memory_with_format(bytes, format.format) {
        Ok(image) => Ok(DecodedImage { image, source: Ghost(bytes@), path: format.path }),
        Err(error) => Err(error.to_string()),
    }
}

/// Resizes `img` to `width` by `height` with `DynamicImage::resize_exact`
/// and the triangle filter, and keeps its red, green and blue channels
/// (`to_rgb8`). The result comes from `img` and has the requested size, one
/// colour per pixel; which colours is not stated here.
#[verifier::external_body]
fn resize_to_raster(img: &DecodedImage, width: u32, height: u32) -> (r: WorkingRaster)
    ensures
        r.raster.width == width,
        r.raster.height == height,
        r.raster.wf(),
        r.source@ == img.source@,
        r.path@ == img.path@,
{
    let rgb = img.image.resize_exact(width, height, image::imageops::FilterType::Triangle).to_rgb8();
    let raster = Raster { width: rgb.width(), height: rgb.height(), pixels: rgb.pixels().map(|pixel| pixel.0).collect() };
    WorkingRaster { raster, source: Ghost(img.source@), path: Ghost(img.path@) }
}

/// The wallpaper at `path`, whose contents are `bytes`, as the working
/// raster: `bytes` decoded in the format that the extension of `path` names,
/// then resized to `WORKING_WIDTH` by `WORKING_HEIGHT` with the triangle
/// filter. Fails with the `image` crate's message where the extension names
/// no format it knows or the bytes do not decode in it.
pub fn working_raster(bytes: &[u8], path: &str) -> (r: Result<WorkingRaster, String>)
    ensures
        r matches Ok(w) ==> {
            &&& w.raster.width == WORKING_WIDTH
            &&& w.raster.height == WORKING_HEIGHT
            &&& w.raster.wf()
            &&& w.source@ == bytes@
            &&& w.path@ == path@
        },
        !names_image_format(path@) ==> r is Err,
{
    let format = match format_of_path(path) {
        Ok(format) => format,
        Err(error) => return Err(error),
    };
    let decoded = match decode_image(bytes, format) {
        Ok(decoded) => decoded,
        Err(error) => return Err(error),
    };
    Ok(resize_to_raster(&decoded, WORKING_WIDTH, WORKING_HEIGHT))
}

/// The width of the frame of pixels whose colours decide the background:
/// a 28th of the shorter side, and at least 2.
pub open spec fn spec_border_width(width: int, height: int) -> int {
    let shorter = if width < height { width } else { height };
    if shorter / 28 > 2 { shorter / 28 } else { 2 }
}

/// The pixel at index `p` of a `width` by `height` image lies in its frame.
pub open spec fn on_border(width: int, height: int, p: int) -> bool {
    let x = p % width;
    let y = p / width;
    let b = spec_border_width(width, height);
    x < b || x >= width - b || y < b || y >= height - b
}

/// The colours of the frame pixels among the first `k` pixels, row by row.
pub open spec fn border_prefix(img: Raster, k: nat) -> Seq<Rgb>
    decreases k,
{
    if k == 0 {
        seq![]
    } else {
        let prev = border_prefix(img, (k - 1) as nat);
        if on_border(img.width as int, img.height as int, k - 1) {
            prev.push(img.pixels@[k - 1])
        } else {
            prev
        }
    }
}

/// The colours of the frame pixels, row by row.
pub open spec fn border_pixels(img: Raster) -> Seq<Rgb> {
    border_prefix(img, img.pixels@.len())
}

/// The coarse colour bucket of a colour: each channel divided by 16, as one
/// number below 4096.
pub open spec fn bucket(c: Rgb) -> int {
    (c[0] / 16) * 256 + (c[1] / 16) * 16 + c[2] / 16
}

/// The colours of `s` that fall in bucket `key`, in order.
pub open spec fn bucket_members(s: Seq<Rgb>, key: int) -> Seq<Rgb> {
    s.filter(|c: Rgb| bucket(c) == key)
}

/// The frame width of a `width` by `height` image.
pub fn border_width(width: u32, height: u32) -> (b: u32)
    ensures
        b == spec_border_width(width as int, height as int),
{
    let shorter = if width < height { width } else { height };
    if shorter / 28 > 2 { shorter / 28 } else { 2 }
}

fn bucket_of(c: Rgb) -> (k: usize)
    ensures
        k == bucket(c),
        k < 4096,
{
    (c[0] / 16) as usize * 256 + (c[1] / 16) as usize * 16 + (c[2] / 16) as usize
}

fn is_border_pixel(width: u32, height: u32, b: u32, p: usize) -> (r: bool)
    requires
        width > 0,
        b == spec_border_width(width as int, height as int),
    ensures
        r == on_border(width as int, height as int, p as int),
{
    let x = (p % width as usize) as u64;
    let y = (p / width as usize) as u64;
    x < b as u64 || x + b as u64 >= width as u64 || y < b as u64 || b as u64 >= height as u64
        || y >= height as u64 - b as u64
}

/// `key` and `members` are the background of a frame whose pixels are
/// `border`: `key` is the first bucket, counting up, that no other bucket
/// holds more frame pixels than, and `members` are the frame pixels in it,
/// in order.
pub open spec fn is_background_of(border: Seq<Rgb>, key: int, members: Seq<Rgb>) -> bool {
    &&& 0 <= key < 4096
    &&& members == bucket_members(border, key)
    &&& members.len() > 0
    &&& forall|k: int| #[trigger] bucket_members(border, k).len() <= members.len()
    &&& forall|k: int| 0 <= k < key ==> #[trigger] bucket_members(border, k).len() < members.len()
}

/// The count that a map of bucket counts holds for `key`: its entry, or 0
/// where it has none.
spec fn tally(counts: Map<usize, usize>, key: usize) -> int {
    if counts.contains_key(key) {
        counts[key] as int
    } else {
        0
    }
}

fn tally_of(counts: &HashMap<usize, usize>, key: usize) -> (n: usize)
    ensures
        n == tally(counts@, key),
{
    broadcast use vstd::std_specs::hash::group_hash_axioms;

    match counts.get(&key) {
        Some(count) => *count,
        None => 0,
    }
}

/// The background of the image: the colour bucket that most frame pixels
/// fall in (the first such bucket, counting up, when several tie), with the
/// frame pixels in it, row by row.
pub fn background_pixels(img: &Raster) -> (r: (usize, Vec<Rgb>))
    requires
        img.wf(),
        img.width > 0,
        img.height > 0,
    ensures
        is_background_of(border_pixels(*img), r.0 as int, r.1@),
{
    broadcast use vstd::std_specs::hash::group_hash_axioms;

    let w = img.width;
    let h = img.height;
    let b = border_width(w, h);
    let n = img.pixels.len();
    let mut counts: HashMap<usize, usize> = HashMap::new();
    proof {
        assert forall|j: usize| j < 4096 implies #[trigger] tally(counts@, j) == bucket_members(
            border_prefix(*img, 0),
            j as int,
        ).len() by {
            assert(border_prefix(*img, 0) =~= Seq::<Rgb>::empty());
        }
    }
    let mut p: usize = 0;
    while p < n
        invariant
            n == img.pixels@.len(),
            img.wf(),
            w == img.width,
            h == img.height,
            w > 0,
            b == spec_border_width(w as int, h as int),
            p <= n,
            border_prefix(*img, p as nat).len() <= p,
            forall|j: usize|
                j < 4096 ==> #[trigger] tally(counts@, j) == bucket_members(
                    border_prefix(*img, p as nat),
                    j as int,
                ).len(),
            p >= 1 ==> tally(counts@, bucket(img.pixels@[0]) as usize) >= 1,
        decreases n - p,
    {
        let ghost prev = border_prefix(*img, p as nat);
        if is_border_pixel(w, h, b, p) {
            let c = img.pixels[p];
            let key = bucket_of(c);
            let count = tally_of(&counts, key);
            proof {
                assert forall|j: int| 0 <= j < 4096 implies bucket_members(prev.push(c), j)
                    == if j == key { bucket_members(prev, j).push(c) } else { bucket_members(prev, j) } by {
                    prev.lemma_filter_push(c, |c: Rgb| bucket(c) == j);
                }
                prev.lemma_filter_len(|c: Rgb| bucket(c) == key);
                assert(tally(counts@, key) == bucket_members(prev, key as int).len());
            }
            let ghost before = counts@;
            counts.insert(key, count + 1);
            proof {
                assert(border_prefix(*img, (p + 1) as nat) == prev.push(c));
                assert forall|j: usize| j < 4096 implies #[trigger] tally(counts@, j) == bucket_members(
                    border_prefix(*img, (p + 1) as nat),
                    j as int,
                ).len() by {
                    if j != key {
                        assert(tally(before, j) == bucket_members(prev, j as int).len());
                    }
                }
            }
        } else {
            proof {
                if p == 0 {
                    assert(on_border(w as int, h as int, 0));
                }
            }
        }
        p += 1;
    }
    let mut best: usize = 0;
    let mut best_count: usize = tally_of(&counts, 0);
    let mut k: usize = 1;
    while k < 4096
        invariant
            1 <= k <= 4096,
            best < k,
            best_count == tally(counts@, best),
            forall|j: usize| j < k ==> #[trigger] tally(counts@, j) <= best_count,
            forall|j: usize| j < best ==> #[trigger] tally(counts@, j) < best_count,
        decreases 4096 - k,
    {
        let count = tally_of(&counts, k);
        if count > best_count {
            best = k;
            best_count = count;
        }
        k += 1;
    }
    let mut members: Vec<Rgb> = Vec::new();
    let mut p: usize = 0;
    while p < n
        invariant
            n == img.pixels@.len(),
            img.wf(),
            w == img.width,
            h == img.height,
            w > 0,
            b == spec_border_width(w as int, h as int),
            p <= n,
            members@ == bucket_members(border_prefix(*img, p as nat), best as int),
        decreases n - p,
    {
        let ghost prev = border_prefix(*img, p as nat);
        if is_border_pixel(w, h, b, p) {
            let c = img.pixels[p];
            proof {
                prev.lemma_filter_push(c, |c: Rgb| bucket(c) == best as int);
            }
            if bucket_of(c) == best {
                members.push(c);
            }
        }
        p += 1;
    }
    proof {
        let border = border_pixels(*img);
        assert(tally(counts@, best) == members@.len());
        assert forall|key: int| 0 <= key < best implies #[trigger] bucket_members(border, key).len() < members@.len() by {
            assert(tally(counts@, key as usize) < best_count);
        }
        assert(n >= 1) by (nonlinear_arith)
            requires n == w * h, w > 0, h > 0;
        assert(tally(counts@, bucket(img.pixels@[0]) as usize) >= 1);
        assert forall|key: int| #[trigger] bucket_members(border, key).len() <= members@.len() by {
            if 0 <= key < 4096 {
                assert(tally(counts@, key as usize) <= best_count);
            } else {
                let s = bucket_members(border, key);
                if s.len() > 0 {
                    border.lemma_filter_pred(|c: Rgb| bucket(c) == key, 0);
                    assert(bucket(s[0]) == key);
                }
            }
        }
    }
    (best, members)
}

/// Two images have one size and the same colour at every frame pixel.
pub open spec fn agree_on_border(a: Raster, b: Raster) -> bool {
    &&& a.width == b.width
    &&& a.height == b.height
    &&& forall|p: int|
        0 <= p < a.pixels@.len() && on_border(a.width as int, a.height as int, p) ==> #[trigger] a.pixels@[p]
            == b.pixels@[p]
}

proof fn lemma_border_prefix_agrees(a: Raster, b: Raster, k: nat)
    requires
        a.wf(),
        b.wf(),
        agree_on_border(a, b),
        k <= a.pixels@.len(),
    ensures
        border_prefix(a, k) == border_prefix(b, k),
    decreases k,
{
    if k > 0 {
        lemma_border_prefix_agrees(a, b, (k - 1) as nat);
        if on_border(a.width as int, a.height as int, k - 1) {
            assert(a.pixels@[k - 1] == b.pixels@[k - 1]);
        }
    }
}

/// A frame has one background: the bucket and the pixels that
/// `is_background_of` allows are unique.
proof fn lemma_background_unique(border: Seq<Rgb>, key_a: int, members_a: Seq<Rgb>, key_b: int, members_b: Seq<Rgb>)
    requires
        is_background_of(border, key_a, members_a),
        is_background_of(border, key_b, members_b),
    ensures
        key_a == key_b,
        members_a == members_b,
{
    assert(bucket_members(border, key_b).len() <= members_a.len());
    assert(bucket_members(border, key_a).len() <= members_b.len());
    if key_a < key_b {
        assert(bucket_members(border, key_a).len() < members_b.len());
    }
    if key_b < key_a {
        assert(bucket_members(border, key_b).len() < members_a.len());
    }
}

/// Only the frame decides the background: two images of one size that have
/// the same colour at every frame pixel have the same background bucket and
/// the same background pixels, whatever the rest of them holds.
pub proof fn law_background_follows_border(
    a: Raster,
    b: Raster,
    key_a: int,
    members_a: Seq<Rgb>,
    key_b: int,
    members_b: Seq<Rgb>,
)
    requires
        a.wf(),
        b.wf(),
        agree_on_border(a, b),
        is_background_of(border_pixels(a), key_a, members_a),
        is_background_of(border_pixels(b), key_b, members_b),
    ensures
        key_a == key_b,
        members_a == members_b,
{
    lemma_border_prefix_agrees(a, b, a.pixels@.len());
    assert(border_pixels(a) == border_pixels(b));
    lemma_background_unique(border_pixels(a), key_a, members_a, key_b, members_b);
}

/// The foreground pixels of column `x` among the first `rows` rows, top
/// to bottom: those whose flag in `foreground` is set.
pub open spec fn column_prefix(img: Raster, foreground: Seq<bool>, x: int, rows: nat) -> Seq<Rgb>
    decreases rows,
{
    if rows == 0 {
        seq![]
    } else {
        let prev = column_prefix(img, foreground, x, (rows - 1) as nat);
        let p = (rows - 1) * img.width + x;
        if foreground[p] {
            prev.push(img.pixels@[p])
        } else {
            prev
        }
    }
}

/// The foreground pixels of column `x`, top to bottom.
pub open spec fn foreground_column(img: Raster, foreground: Seq<bool>, x: int) -> Seq<Rgb> {
    column_prefix(img, foreground, x, img.height as nat)
}

/// Groups the foreground pixels of the image by column: entry `x` holds the
/// pixels of column `x` whose flag in `foreground` (one flag per pixel, row
/// by row) is set, top to bottom.
pub fn foreground_columns(img: &Raster, foreground: &Vec<bool>) -> (columns: Vec<Vec<Rgb>>)
    requires
        img.wf(),
        foreground@.len() == img.pixels@.len(),
    ensures
        columns@.len() == img.width,
        forall|x: int|
            0 <= x < img.width ==> (#[trigger] columns@[x])@ == foreground_column(*img, foreground@, x),
{
    let w = img.width as usize;
    let h = img.height as usize;
    let mut columns: Vec<Vec<Rgb>> = Vec::new();
    let mut x: usize = 0;
    while x < w
        invariant
            img.wf(),
            foreground@.len() == img.pixels@.len(),
            w == img.width,
            h == img.height,
            x <= w,
            columns@.len() == x,
            forall|c: int| 0 <= c < x ==> (#[trigger] columns@[c])@ == foreground_column(*img, foreground@, c),
        decreases w - x,
    {
        let mut column: Vec<Rgb> = Vec::new();
        let mut y: usize = 0;
        while y < h
            invariant
                img.wf(),
                foreground@.len() == img.pixels@.len(),
                w == img.width,
                h == img.height,
                x < w,
                y <= h,
                column@ == column_prefix(*img, foreground@, x as int, y as nat),
            decreases h - y,
        {
            proof {
                assert(y * w + x < w * h) by (nonlinear_arith)
                    requires y < h, x < w;
                assert(w * h == img.pixels@.len());
                assert(img.pixels@.len() == img.pixels.len());
            }
            let p = y * w + x;
            if foreground[p] {
                column.push(img.pixels[p]);
            }
            y += 1;
        }
        columns.push(column);
        x += 1;
    }
    columns
}

/// The number of foreground pixels a column needs to count as part of the
/// foreground region: 8% of the image height, rounded, and at least 3.
pub open spec fn spec_minimum_column_height(height: int) -> int {
    let rounded = (4 * height + 25) / 50;
    if rounded > 3 { rounded } else { 3 }
}

/// The number of foreground pixels a column needs to count as part of the
/// foreground region: 8% of `height`, rounded to the nearest integer (it is
/// never halfway), and at least 3.
pub fn minimum_column_height(height: u32) -> (m: usize)
    ensures
        m == spec_minimum_column_height(height as int),
{
    let rounded = (4 * height as u64 + 25) / 50;
    if rounded > 3 { rounded as usize } else { 3 }
}

/// Which columns are tall enough to belong to the foreground region.
pub open spec fn tall_columns(columns: Seq<Vec<Rgb>>, minimum: int) -> Seq<bool> {
    Seq::new(columns.len(), |x: int| columns[x]@.len() >= minimum)
}

/// The foreground region of an image of the given height: the first widest
/// run of columns that each hold enough foreground pixels, as inclusive
/// bounds, provided it is at least `count` columns wide.
pub fn foreground_region(columns: &Vec<Vec<Rgb>>, height: u32, count: usize) -> (r: Option<(usize, usize)>)
    ensures
        ({
            let flags = tall_columns(columns@, spec_minimum_column_height(height as int));
            match r {
                Some((a, b)) => is_first_longest_run(flags, a as int, b as int) && b - a + 1 >= count,
                None => forall|a: int, b: int|
                    #[trigger] is_first_longest_run(flags, a, b) ==> b - a + 1 < count,
            }
        }),
{
    let minimum = minimum_column_height(height);
    let ghost flags_spec = tall_columns(columns@, minimum as int);
    let mut flags: Vec<bool> = Vec::new();
    let mut x: usize = 0;
    while x < columns.len()
        invariant
            x <= columns@.len(),
            flags_spec == tall_columns(columns@, minimum as int),
            flags@ == flags_spec.take(x as int),
        decreases columns.len() - x,
    {
        flags.push(columns[x].len() >= minimum);
        x += 1;
        assert(flags@ =~= flags_spec.take(x as int));
    }
    assert(flags@ =~= flags_spec);
    match longest_run(flags.as_slice()) {
        Some((a, b)) => {
            if b - a + 1 >= count {
                Some((a, b))
            } else {
                proof {
                    assert forall|c: int, d: int| #[trigger] is_first_longest_run(flags_spec, c, d) implies d - c + 1 < count by {
                        assert(is_first_longest_run(flags_spec, a as int, b as int));
                        assert(d - c <= b - a);
                    }
                }
                None
            }
        },
        None => {
            proof {
                assert forall|c: int, d: int| #[trigger] is_first_longest_run(flags_spec, c, d) implies d - c + 1 < count by {
                    assert(flags_spec[c]);
                }
            }
            None
        },
    }
}

/// Why no palette could be read off an image.
#[derive(Debug, PartialEq, Eq)]
pub enum ExtractError {
    /// No run of tall enough columns is as wide as the requested number of
    /// colours.
    NoForegroundRegion,
    /// The slice with this number (counting from 1) holds no foreground
    /// pixel.
    EmptySlice(usize),
}

/// The columns from which one source colour is sampled, as two inclusive
/// ranges: the narrow one around the middle of the slice, used when it holds
/// at least 8 foreground pixels, and the whole slice otherwise.
#[derive(Clone, Copy, Debug, PartialEq, Eq)]
pub struct SliceBounds {
    pub start: usize,
    pub end: usize,
    pub wide_start: usize,
    pub wide_end: usize,
}

/// The pixels of columns `a..=b`, column by column.
pub open spec fn slice_pixels(columns: Seq<Vec<Rgb>>, a: int, b: int) -> Seq<Rgb> {
    columns.subrange(a, b + 1).map_values(|c: Vec<Rgb>| c@).flatten()
}

/// The pixels a slice is sampled from.
pub open spec fn sampled_pixels(columns: Seq<Vec<Rgb>>, s: SliceBounds) -> Seq<Rgb> {
    let narrow = slice_pixels(columns, s.start as int, s.end as int);
    if narrow.len() >= 8 {
        narrow
    } else {
        slice_pixels(columns, s.wide_start as int, s.wide_end as int)
    }
}

/// One channel of a sequence of colours.
pub open spec fn channel(s: Seq<Rgb>, k: int) -> Seq<u8> {
    s.map_values(|c: Rgb| c[k])
}

/// The colour sampled from a slice: the median of each channel.
pub open spec fn slice_color(columns: Seq<Vec<Rgb>>, s: SliceBounds) -> Rgb {
    let px = sampled_pixels(columns, s);
    [spec_median(channel(px, 0)), spec_median(channel(px, 1)), spec_median(channel(px, 2))]
}

/// Both ranges of the slice lie within the columns.
pub open spec fn slice_in_bounds(s: SliceBounds, columns: nat) -> bool {
    s.start <= s.end < columns && s.wide_start <= s.wide_end < columns
}

/// Columns `a..=b` hold the same pixels in both column lists.
pub open spec fn same_columns(x: Seq<Vec<Rgb>>, y: Seq<Vec<Rgb>>, a: int, b: int) -> bool {
    forall|c: int| a <= c <= b ==> (#[trigger] x[c])@ == y[c]@
}

proof fn lemma_slice_pixels_agree(x: Seq<Vec<Rgb>>, y: Seq<Vec<Rgb>>, a: int, b: int)
    requires
        0 <= a <= b < x.len(),
        b < y.len(),
        same_columns(x, y, a, b),
    ensures
        slice_pixels(x, a, b) == slice_pixels(y, a, b),
{
    let f = |c: Vec<Rgb>| c@;
    let sx = x.subrange(a, b + 1).map_values(f);
    let sy = y.subrange(a, b + 1).map_values(f);
    assert forall|k: int| 0 <= k < b + 1 - a implies #[trigger] sx[k] == sy[k] by {
        assert(x[a + k]@ == y[a + k]@);
    }
    assert(sx =~= sy);
}

/// A slice's colour comes from its narrow middle range alone when that
/// range holds at least 8 foreground pixels: two column lists that agree on
/// the columns `start..=end` give the slice the same colour, whatever the
/// columns around them hold. When the narrow range holds fewer, the colour
/// comes from the whole slice: lists that agree on `wide_start..=wide_end`
/// give the same colour.
pub proof fn law_slice_color_from_its_range(x: Seq<Vec<Rgb>>, y: Seq<Vec<Rgb>>, s: SliceBounds)
    requires
        slice_in_bounds(s, x.len()),
        slice_in_bounds(s, y.len()),
    ensures
        same_columns(x, y, s.start as int, s.end as int)
            && slice_pixels(x, s.start as int, s.end as int).len() >= 8 ==> slice_color(x, s) == slice_color(y, s)
                && sampled_pixels(x, s) == slice_pixels(x, s.start as int, s.end as int),
        same_columns(x, y, s.start as int, s.end as int) && same_columns(x, y, s.wide_start as int, s.wide_end as int)
            ==> slice_color(x, s) == slice_color(y, s),
        slice_pixels(x, s.start as int, s.end as int).len() < 8 ==> sampled_pixels(x, s) == slice_pixels(
            x,
            s.wide_start as int,
            s.wide_end as int,
        ),
{
    if same_columns(x, y, s.start as int, s.end as int) {
        lemma_slice_pixels_agree(x, y, s.start as int, s.end as int);
        if same_columns(x, y, s.wide_start as int, s.wide_end as int) {
            lemma_slice_pixels_agree(x, y, s.wide_start as int, s.wide_end as int);
        }
    }
}

fn collect_slice(columns: &Vec<Vec<Rgb>>, a: usize, b: usize) -> (r: Vec<Rgb>)
    requires
        a <= b < columns@.len(),
    ensures
        r@ == slice_pixels(columns@, a as int, b as int),
{
    let ghost f = |c: Vec<Rgb>| c@;
    let mut out: Vec<Rgb> = Vec::new();
    let mut c: usize = a;
    assert(columns@.subrange(a as int, a as int).map_values(f) =~= Seq::<Seq<Rgb>>::empty());
    while c <= b
        invariant
            a <= c <= b + 1,
            b < columns.len(),
            f == |c: Vec<Rgb>| c@,
            out@ == columns@.subrange(a as int, c as int).map_values(f).flatten(),
        decreases b + 1 - c,
    {
        let ghost before = columns@.subrange(a as int, c as int).map_values(f);
        assert(columns@.subrange(a as int, c + 1).map_values(f) =~= before.push(columns@[c as int]@));
        proof {
            before.lemma_flatten_push(columns@[c as int]@);
        }
        let column = &columns[c];
        let mut i: usize = 0;
        let ghost start = out@;
        while i < column.len()
            invariant
                i <= column@.len(),
                out@ == start + column@.take(i as int),
            decreases column.len() - i,
        {
            out.push(column[i]);
            i += 1;
            assert(column@.take(i as int) =~= column@.take(i - 1).push(column@[i - 1]));
        }
        assert(column@.take(column@.len() as int) =~= column@);
        c += 1;
    }
    out
}

fn channels(px: &Vec<Rgb>) -> (r: (Vec<u8>, Vec<u8>, Vec<u8>))
    ensures
        r.0@ == channel(px@, 0),
        r.1@ == channel(px@, 1),
        r.2@ == channel(px@, 2),
{
    let mut red: Vec<u8> = Vec::new();
    let mut green: Vec<u8> = Vec::new();
    let mut blue: Vec<u8> = Vec::new();
    let mut i: usize = 0;
    while i < px.len()
        invariant
            i <= px@.len(),
            red@ == channel(px@.take(i as int), 0),
            green@ == channel(px@.take(i as int), 1),
            blue@ == channel(px@.take(i as int), 2),
        decreases px.len() - i,
    {
        let c = px[i];
        red.push(c[0]);
        green.push(c[1]);
        blue.push(c[2]);
        i += 1;
        assert(red@ =~= channel(px@.take(i as int), 0));
        assert(green@ =~= channel(px@.take(i as int), 1));
        assert(blue@ =~= channel(px@.take(i as int), 2));
    }
    assert(px@.take(px@.len() as int) =~= px@);
    (red, green, blue)
}

/// Samples one colour from each slice: the per-channel median of the
/// foreground pixels of its narrow range, or of the whole slice when the
/// narrow range holds fewer than 8. Fails on the first slice that holds no
/// foreground pixel at all.
pub fn sample_slices(columns: &Vec<Vec<Rgb>>, slices: &Vec<SliceBounds>) -> (r: Result<Vec<Rgb>, ExtractError>)
    requires
        forall|i: int| 0 <= i < slices@.len() ==> slice_in_bounds(#[trigger] slices@[i], columns@.len()),
    ensures
        match r {
            Ok(colors) => {
                &&& colors@.len() == slices@.len()
                &&& forall|i: int| 0 <= i < slices@.len() ==> sampled_pixels(columns@, #[trigger] slices@[i]).len() > 0
                &&& forall|i: int| 0 <= i < slices@.len() ==> #[trigger] colors@[i] == slice_color(columns@, slices@[i])
            },
            Err(e) => exists|k: int| {
                &&& 0 <= k < slices@.len()
                &&& e == ExtractError::EmptySlice((k + 1) as usize)
                &&& sampled_pixels(columns@, #[trigger] slices@[k]).len() == 0
                &&& forall|i: int| 0 <= i < k ==> sampled_pixels(columns@, #[trigger] slices@[i]).len() > 0
            },
        },
{
    let mut colors: Vec<Rgb> = Vec::new();
    let mut i: usize = 0;
    while i < slices.len()
        invariant
            i <= slices@.len(),
            forall|j: int| 0 <= j < slices@.len() ==> slice_in_bounds(#[trigger] slices@[j], columns@.len()),
            colors@.len() == i,
            forall|j: int| 0 <= j < i ==> sampled_pixels(columns@, #[trigger] slices@[j]).len() > 0,
            forall|j: int| 0 <= j < i ==> #[trigger] colors@[j] == slice_color(columns@, slices@[j]),
        decreases slices.len() - i,
    {
        let s = slices[i];
        assert(slice_in_bounds(slices@[i as int], columns@.len()));
        let mut values = collect_slice(columns, s.start, s.end);
        if values.len() < 8 {
            values = collect_slice(columns, s.wide_start, s.wide_end);
        }
        if values.len() == 0 {
            assert(sampled_pixels(columns@, slices@[i as int]).len() == 0);
            return Err(ExtractError::EmptySlice(i + 1));
        }
        let (mut red, mut green, mut blue) = channels(&values);
        let r = median(&mut red);
        let g = median(&mut green);
        let b = median(&mut blue);
        let c: Rgb = [r, g, b];
        assert(c@ =~= slice_color(columns@, slices@[i as int])@);
        colors.push(c);
        i += 1;
    }
    Ok(colors)
}

} // verus!
