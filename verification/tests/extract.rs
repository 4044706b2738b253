use wallfetch::extract::{
    background_pixels, border_width, foreground_columns, foreground_region, minimum_column_height,
    sample_slices, working_raster, ExtractError, Raster, SliceBounds, WORKING_HEIGHT,
    WORKING_WIDTH,
};

fn raster(width: u32, height: u32, f: impl Fn(u32, u32) -> [u8; 3]) -> Raster {
    let mut pixels = Vec::new();
    for y in 0..height {
        for x in 0..width {
            pixels.push(f(x, y));
        }
    }
    Raster { width, height, pixels }
}

#[test]
fn border_width_is_a_28th_of_the_shorter_side() {
    assert_eq!(border_width(224, 112), 4);
    assert_eq!(border_width(10, 10), 2);
    assert_eq!(border_width(1000, 2800), 35);
}

#[test]
fn minimum_height_is_eight_percent_rounded() {
    assert_eq!(minimum_column_height(112), 9);
    assert_eq!(minimum_column_height(10), 3);
    assert_eq!(minimum_column_height(100), 8);
    assert_eq!(minimum_column_height(50), 4);
    for h in [0u32, 1, 7, 31, 37, 56, 63, 112, 1000, 4321] {
        let expected = 3.max((f64::from(h) * 0.08).round() as usize);
        assert_eq!(minimum_column_height(h), expected);
    }
}

#[test]
fn background_is_the_most_common_border_bucket() {
    // A dark frame around a bright centre, with one lighter dark pixel in the
    // same bucket.
    let img = raster(10, 10, |x, y| {
        if (2..8).contains(&x) && (2..8).contains(&y) {
            [250, 250, 250]
        } else if x == 0 && y == 0 {
            [15, 3, 0]
        } else {
            [1, 2, 3]
        }
    });
    let (bucket, pixels) = background_pixels(&img);
    assert_eq!(bucket, 0);
    assert_eq!(pixels.len(), 64);
    assert_eq!(pixels[0], [15, 3, 0]);
    assert_eq!(pixels[1], [1, 2, 3]);
}

#[test]
fn background_ties_go_to_the_lowest_bucket() {
    let img = raster(4, 1, |x, _| if x < 2 { [200, 0, 0] } else { [0, 0, 200] });
    let (bucket, pixels) = background_pixels(&img);
    assert_eq!(bucket, 12);
    assert_eq!(pixels, vec![[0, 0, 200], [0, 0, 200]]);
}

#[test]
fn columns_and_region() {
    let img = raster(6, 4, |x, y| [x as u8, y as u8, 0]);
    // Columns 1..=3 are foreground in every row; column 5 in one row.
    let mask: Vec<bool> = (0..24).map(|p| {
        let (x, y) = (p % 6, p / 6);
        (1..=3).contains(&x) || (x == 5 && y == 2)
    }).collect();
    let columns = foreground_columns(&img, &mask);
    assert_eq!(columns.len(), 6);
    assert_eq!(columns[0], Vec::<[u8; 3]>::new());
    assert_eq!(columns[2], vec![[2, 0, 0], [2, 1, 0], [2, 2, 0], [2, 3, 0]]);
    assert_eq!(columns[5], vec![[5, 2, 0]]);
    // A height of 40 rows needs 3 pixels per column.
    assert_eq!(foreground_region(&columns, 40, 3), Some((1, 3)));
    assert_eq!(foreground_region(&columns, 40, 4), None);
    // A height of 100 rows needs 8.
    assert_eq!(foreground_region(&columns, 100, 1), None);
}

#[test]
fn slices_take_channel_medians() {
    let columns = vec![
        vec![[10, 0, 0]; 3],
        vec![[20, 5, 1], [30, 5, 3]],
        vec![],
        vec![[1, 1, 1]; 9],
    ];
    let slices = vec![
        // Fewer than 8 pixels in the narrow range: the wide range is used.
        SliceBounds { start: 1, end: 1, wide_start: 0, wide_end: 2 },
        // Enough pixels in the narrow range.
        SliceBounds { start: 3, end: 3, wide_start: 0, wide_end: 3 },
    ];
    assert_eq!(
        sample_slices(&columns, &slices),
        Ok(vec![[10, 0, 0], [1, 1, 1]])
    );
    let empty = vec![
        SliceBounds { start: 3, end: 3, wide_start: 3, wide_end: 3 },
        SliceBounds { start: 2, end: 2, wide_start: 2, wide_end: 2 },
    ];
    assert_eq!(sample_slices(&columns, &empty), Err(ExtractError::EmptySlice(2)));
}

fn encoded(width: u32, height: u32, format: image::ImageFormat, f: impl Fn(u32, u32) -> [u8; 3]) -> Vec<u8> {
    let img = image::RgbImage::from_fn(width, height, |x, y| image::Rgb(f(x, y)));
    let mut bytes = std::io::Cursor::new(Vec::new());
    image::DynamicImage::ImageRgb8(img).write_to(&mut bytes, format).unwrap();
    bytes.into_inner()
}

#[test]
fn working_raster_is_224_by_112() {
    assert_eq!((WORKING_WIDTH, WORKING_HEIGHT), (224, 112));
    let bytes = encoded(50, 40, image::ImageFormat::Png, |_, _| [10, 200, 30]);
    let raster = working_raster(&bytes, "/walls/flat.png").unwrap().raster;
    assert_eq!(raster.width, 224);
    assert_eq!(raster.height, 112);
    assert_eq!(raster.pixels.len(), 224 * 112);
    // Resizing a single-colour image keeps its colour.
    assert!(raster.pixels.iter().all(|&pixel| pixel == [10, 200, 30]));
}

#[test]
fn working_raster_keeps_left_and_right() {
    let bytes = encoded(448, 224, image::ImageFormat::Png, |x, _| if x < 224 { [255, 0, 0] } else { [0, 0, 255] });
    let raster = working_raster(&bytes, "split.PNG").unwrap().raster;
    assert_eq!(raster.pixels[0], [255, 0, 0]);
    assert_eq!(raster.pixels[223], [0, 0, 255]);
    assert_eq!(raster.pixels[111 * 224], [255, 0, 0]);
}

#[test]
fn working_raster_reads_the_format_off_the_extension() {
    let png = encoded(8, 8, image::ImageFormat::Png, |_, _| [1, 2, 3]);
    assert!(working_raster(&png, "wall.png").is_ok());
    // PNG bytes under a JPEG name do not decode as JPEG.
    assert!(working_raster(&png, "wall.jpg").is_err());
    // No extension, or one that names no image format.
    assert!(working_raster(&png, "wall").is_err());
    assert!(working_raster(&png, "wall.txt").is_err());
    let jpeg = encoded(16, 16, image::ImageFormat::Jpeg, |_, _| [128, 128, 128]);
    let raster = working_raster(&jpeg, "photo.jpeg").unwrap().raster;
    assert_eq!((raster.width, raster.height), (224, 112));
}

#[test]
fn working_raster_refuses_bytes_that_do_not_decode() {
    assert!(working_raster(b"not an image", "wall.png").is_err());
    assert!(working_raster(&[], "wall.webp").is_err());
}

#[test]
fn background_follows_the_border_alone() {
    let frame = |x: u32, y: u32| if (x + y) % 3 == 0 { [40, 40, 40] } else { [200, 10, 10] };
    let a = raster(30, 20, |x, y| {
        if (2..28).contains(&x) && (2..18).contains(&y) { [0, 255, 0] } else { frame(x, y) }
    });
    let b = raster(30, 20, |x, y| {
        if (2..28).contains(&x) && (2..18).contains(&y) { [x as u8, y as u8, 7] } else { frame(x, y) }
    });
    assert_eq!(background_pixels(&a), background_pixels(&b));
    let (bucket, pixels) = background_pixels(&a);
    assert_eq!(bucket, 12 * 256);
    assert!(pixels.iter().all(|&pixel| pixel == [200, 10, 10]));
}

#[test]
fn working_raster_comes_from_the_given_bytes() {
    let dark = encoded(20, 10, image::ImageFormat::Png, |_, _| [5, 5, 5]);
    let light = encoded(20, 10, image::ImageFormat::Png, |_, _| [250, 240, 230]);
    assert_eq!(working_raster(&dark, "a.png").unwrap().raster.pixels[0], [5, 5, 5]);
    assert_eq!(working_raster(&light, "a.png").unwrap().raster.pixels[0], [250, 240, 230]);
    // Extensions are looked up in any letter case.
    assert!(working_raster(&light, "A.ApNg").is_ok());
}
