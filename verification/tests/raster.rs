use fntforge::raster::{blit, downsample, Image};

#[test]
fn blit_copies_and_clips() {
    let mut dst = Image(image::RgbaImage::from_pixel(4, 3, image::Rgba([0, 0, 0, 0])));
    let src = Image(image::RgbaImage::from_fn(2, 2, |x, y| image::Rgba([x as u8 + 1, y as u8 + 1, 9, 255])));
    blit(&mut dst, &src, 3, 1);
    assert_eq!(dst.0.dimensions(), (4, 3));
    assert_eq!(*dst.0.get_pixel(3, 1), image::Rgba([1, 1, 9, 255]));
    assert_eq!(*dst.0.get_pixel(3, 2), image::Rgba([1, 2, 9, 255]));
    assert_eq!(*dst.0.get_pixel(2, 1), image::Rgba([0, 0, 0, 0]));
    assert_eq!(*dst.0.get_pixel(0, 0), image::Rgba([0, 0, 0, 0]));
}

#[test]
fn downsample_divides_each_side() {
    let img = Image(image::RgbaImage::from_pixel(9, 4, image::Rgba([200, 100, 50, 255])));
    let small = downsample(&img, 2);
    assert_eq!(small.0.dimensions(), (4, 2));
    assert_eq!(*small.0.get_pixel(1, 1), image::Rgba([200, 100, 50, 255]));
    let tiny = downsample(&img, 8);
    assert_eq!(tiny.0.dimensions(), (1, 1));
    let same = downsample(&img, 1);
    assert_eq!(same.0.dimensions(), (9, 4));
}

#[test]
fn image_size_reads_both_sides() {
    let img = Image(image::RgbaImage::new(7, 3));
    assert_eq!(fntforge::raster::image_size(&img), (7, 3));
    let empty = Image(image::RgbaImage::new(0, 5));
    assert_eq!(fntforge::raster::image_size(&empty), (0, 5));
}
