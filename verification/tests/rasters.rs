use hdiff::algo;
use hdiff::img::{ColorModel, ColorSub, Heatmap, PixelPatch, RedGreen};
use hdiff::raster::Raster;
use hdiff::{diff, Diffable};
use image::{Rgba, RgbaImage};

fn raster(img: &RgbaImage) -> Raster {
    Raster::from_raw(img.width(), img.height(), img.as_raw().clone()).unwrap()
}

fn image(r: &Raster) -> RgbaImage {
    RgbaImage::from_raw(r.width(), r.height(), r.to_raw()).unwrap()
}

fn img1() -> RgbaImage {
    RgbaImage::from_fn(3, 2, |x, y| match (x, y) {
        (0, 0) => Rgba([10, 200, 30, 255]),
        (1, 0) => Rgba([1, 2, 3, 0]),
        (2, 0) => Rgba([7, 7, 7, 40]),
        (0, 1) => Rgba([1, 2, 3, 9]),
        (1, 1) => Rgba([1, 2, 3, 9]),
        _ => Rgba([50, 60, 70, 80]),
    })
}

fn img2() -> RgbaImage {
    RgbaImage::from_fn(2, 3, |x, y| match (x, y) {
        (0, 0) => Rgba([15, 100, 30, 128]),
        (1, 0) => Rgba([9, 9, 9, 0]),
        (0, 1) => Rgba([1, 2, 3, 9]),
        (1, 1) => Rgba([3, 2, 1, 9]),
        (0, 2) => Rgba([0, 0, 0, 1]),
        _ => Rgba([0, 0, 0, 0]),
    })
}

#[test]
fn test_color_sub() {
    let out = RgbaImage::from_fn(3, 3, |x, y| match (x, y) {
        (0, 0) => Rgba([5, 100, 0, 255]),
        (1, 0) => Rgba([8, 7, 6, 0]),
        (2, 0) => Rgba([7, 7, 7, 40]),
        (0, 1) => Rgba([0, 0, 0, 9]),
        (1, 1) => Rgba([2, 0, 2, 9]),
        (2, 1) => Rgba([50, 60, 70, 80]),
        (0, 2) => Rgba([0, 0, 0, 1]),
        _ => Rgba([0, 0, 0, 0]),
    });
    let diff = raster(&img1()).diff::<ColorSub>(&raster(&img2()));
    assert_eq!(image(&diff), out);
}

#[test]
fn test_heatmap() {
    let out = RgbaImage::from_fn(3, 3, |x, y| match (x, y) {
        (0, 0) => Rgba([255, 0, 0, 255]),
        (1, 0) => Rgba([1, 2, 3, 0]),
        (2, 0) => Rgba([255, 0, 0, 40]),
        (0, 1) => Rgba([1, 2, 3, 9]),
        (1, 1) => Rgba([255, 0, 0, 9]),
        (2, 1) => Rgba([255, 0, 0, 80]),
        (0, 2) => Rgba([0, 0, 0, 0]),
        _ => Rgba([0, 0, 0, 0]),
    });
    let diff = raster(&img1()).diff::<Heatmap>(&raster(&img2()));
    assert_eq!(image(&diff), out);
}

#[test]
fn test_redgreen() {
    let out = RgbaImage::from_fn(3, 3, |x, y| match (x, y) {
        (0, 0) => Rgba([255, 0, 0, 255]),
        (1, 0) => Rgba([1, 2, 3, 0]),
        (2, 0) => Rgba([255, 0, 0, 255]),
        (0, 1) => Rgba([1, 2, 3, 9]),
        (1, 1) => Rgba([0, 0, 255, 255]),
        (2, 1) => Rgba([255, 0, 0, 255]),
        (0, 2) => Rgba([0, 255, 0, 255]),
        _ => Rgba([0, 0, 0, 0]),
    });
    let diff = raster(&img1()).diff::<RedGreen>(&raster(&img2()));
    assert_eq!(image(&diff), out);
    let by_default = diff_of_default();
    assert_eq!(image(&by_default), out);
}

fn diff_of_default() -> Raster {
    let (l, r) = (raster(&img1()), raster(&img2()));
    assert_eq!(diff(&l, &r), l.diff::<algo::Default>(&r));
    diff(&l, &r)
}

#[test]
fn patch_of_image_buffers() {
    let (l, r) = (raster(&img1()), raster(&img2()));
    let patch = l.diff::<PixelPatch>(&r);
    assert_eq!(patch.len(), 3);
    assert_eq!(patch[0].len(), 3);
    assert_eq!(patch[0][0], vec![5i16, -100, 0, -127]);
    assert_eq!(patch[1][2], vec![-50i16, -60, -70, -80]);
    assert_eq!(patch[2][0], vec![0i16, 0, 0, 1]);
    let (gl, gr) = (l.to_grid(), r.to_grid());
    assert_eq!(patch, gl.diff::<PixelPatch>(&gr));
}

#[test]
fn raster_keeps_what_the_image_holds() {
    let img = img1();
    let r = raster(&img);
    assert_eq!((r.width(), r.height()), (3, 2));
    assert_eq!(r.to_raw(), img.as_raw().clone());
    assert_eq!(image(&r), img);
    let g = r.to_grid();
    assert_eq!(g.model, ColorModel::Rgba);
    assert_eq!(g.to_raw(), img.as_raw().clone());
    assert_eq!(g.get_pixel_checked(2, 1).unwrap().channels, vec![50, 60, 70, 80]);
    assert_eq!(Raster::from_grid(&g), r);
}

#[test]
fn raster_needs_enough_samples() {
    assert!(Raster::from_raw(2, 2, vec![0; 15]).is_none());
    assert!(Raster::from_raw(2, 2, vec![0; 16]).is_some());
    let long = Raster::from_raw(1, 1, vec![1, 2, 3, 4, 5, 6]).unwrap();
    assert_eq!(long.to_raw(), vec![1, 2, 3, 4]);
    assert_eq!(Raster::from_raw(0, 7, Vec::new()).unwrap().to_raw(), Vec::<u8>::new());
}
