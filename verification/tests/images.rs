use hdiff::algo;
use hdiff::img::{
    color_sub_pixel, heat_pixel, patch_pixel, red_green_pixel, ColorModel, ColorSub, Grid, Heatmap,
    Pixel, PixelExt, PixelPatch, RedGreen,
};
use hdiff::subpixel::{DiffPixel, Subpixel};
use hdiff::{diff, Diffable};

fn rgba(r: u8, g: u8, b: u8, a: u8) -> Pixel<u8> {
    Pixel::new(ColorModel::Rgba, vec![r, g, b, a]).unwrap()
}

fn grid(model: ColorModel, width: u32, height: u32, data: &[u8]) -> Grid<u8> {
    Grid::from_raw(model, width, height, data).unwrap()
}

#[test]
fn color_sub_on_grids() {
    let img1 = grid(ColorModel::Rgba, 2, 1, &[10, 200, 30, 255, 1, 2, 3, 0]);
    let img2 = grid(ColorModel::Rgba, 2, 1, &[15, 100, 30, 128, 1, 2, 3, 9]);
    let out = grid(ColorModel::Rgba, 2, 1, &[5, 100, 0, 255, 0, 0, 0, 9]);
    let diff = img1.diff::<ColorSub>(&img2);
    assert_eq!(diff, out);
}

#[test]
fn heatmap_on_grids() {
    let img1 = grid(ColorModel::Rgba, 3, 1, &[10, 20, 30, 255, 1, 2, 3, 0, 7, 7, 7, 40]);
    let img2 = grid(ColorModel::Rgba, 3, 1, &[10, 20, 30, 128, 9, 9, 9, 0, 7, 8, 7, 90]);
    let out = grid(ColorModel::Rgba, 3, 1, &[10, 20, 30, 255, 1, 2, 3, 0, 255, 0, 0, 90]);
    let diff = img1.diff::<Heatmap>(&img2);
    assert_eq!(diff, out);
}

#[test]
fn red_green_on_grids() {
    let img1 = grid(
        ColorModel::Rgba,
        5,
        1,
        &[1, 2, 3, 0, 1, 2, 3, 255, 1, 2, 3, 0, 1, 2, 3, 9, 1, 2, 3, 9],
    );
    let img2 = grid(
        ColorModel::Rgba,
        5,
        1,
        &[1, 2, 3, 255, 1, 2, 3, 0, 9, 9, 9, 0, 1, 2, 3, 9, 3, 2, 1, 9],
    );
    let out = grid(
        ColorModel::Rgba,
        5,
        1,
        &[0, 255, 0, 255, 255, 0, 0, 255, 1, 2, 3, 0, 1, 2, 3, 9, 0, 0, 255, 255],
    );
    let diff = img1.diff::<RedGreen>(&img2);
    assert_eq!(diff, out);
}

#[test]
fn default_grid_diff_is_red_green() {
    let img1 = grid(ColorModel::Rgba, 1, 1, &[1, 2, 3, 0]);
    let img2 = grid(ColorModel::Rgba, 1, 1, &[1, 2, 3, 255]);
    assert_eq!(diff(&img1, &img2), img1.diff::<RedGreen>(&img2));
    assert_eq!(img1.diff::<algo::Default>(&img2), grid(ColorModel::Rgba, 1, 1, &[0, 255, 0, 255]));
}

#[test]
fn red_green_looks_at_alpha_first() {
    let l = rgba(7, 8, 9, 0);
    let r = rgba(7, 8, 9, 255);
    assert_eq!(red_green_pixel(&l, &r), rgba(0, 255, 0, 255));
    assert_eq!(red_green_pixel(&r, &l), rgba(255, 0, 0, 255));
}

#[test]
fn red_green_without_alpha_copies_left() {
    let l = Pixel::new(ColorModel::Rgb, vec![1u8, 2, 3]).unwrap();
    let r = Pixel::new(ColorModel::Rgb, vec![9u8, 9, 9]).unwrap();
    assert_eq!(red_green_pixel(&l, &r), l);
}

#[test]
fn output_is_as_large_as_the_larger_input() {
    let small = grid(ColorModel::Luma, 1, 2, &[10, 20]);
    let wide = grid(ColorModel::Luma, 3, 1, &[1, 2, 3]);
    let out = small.diff::<ColorSub>(&wide);
    assert_eq!((out.width(), out.height()), (3, 2));
    assert_eq!(out, grid(ColorModel::Luma, 3, 2, &[9, 2, 3, 20, 0, 0]));
    let heat = small.diff::<Heatmap>(&wide);
    assert_eq!(heat, grid(ColorModel::Luma, 3, 2, &[255, 255, 255, 255, 0, 0]));
    let rg = small.diff::<RedGreen>(&wide);
    assert_eq!(rg, grid(ColorModel::Luma, 3, 2, &[10, 0, 0, 20, 0, 0]));
    let patch = small.diff::<PixelPatch>(&wide);
    assert_eq!(patch, vec![vec![vec![-9i16], vec![2], vec![3]], vec![vec![-20], vec![0], vec![0]]]);
}

#[test]
fn patch_added_to_left_gives_right() {
    let l = grid(ColorModel::Rgba, 2, 2, &[0, 255, 3, 4, 5, 6, 7, 8, 9, 10, 11, 12, 13, 14, 15, 16]);
    let r = grid(ColorModel::Rgba, 2, 2, &[255, 0, 3, 9, 5, 1, 7, 8, 0, 0, 0, 0, 99, 98, 97, 96]);
    let patch = l.diff::<PixelPatch>(&r);
    let left = l.to_raw();
    let right = r.to_raw();
    let mut at = 0;
    for row in &patch {
        for pixel in row {
            for delta in pixel {
                assert_eq!(left[at] as i16 + *delta, right[at] as i16);
                at += 1;
            }
        }
    }
    assert_eq!(at, 16);
    assert_eq!(patch[0][0], vec![255i16, -255, 0, 5]);
}

#[test]
fn patch_pixel_widens_each_depth() {
    let l = Pixel::new(ColorModel::Luma, vec![i8::MIN]).unwrap();
    let r = Pixel::new(ColorModel::Luma, vec![i8::MAX]).unwrap();
    assert_eq!(patch_pixel(&l, &r), vec![255i16]);
    assert_eq!(patch_pixel(&r, &l), vec![-255i16]);
    assert_eq!(0u16.delta(u16::MAX), 65535i32);
    assert_eq!(i16::MAX.delta(i16::MIN), -65535i32);
    assert_eq!(u32::MAX.delta(0), -(u32::MAX as i64));
    assert_eq!(i32::MIN.delta(i32::MAX), u32::MAX as i64);
    assert_eq!(0u64.delta(u64::MAX), u64::MAX as i128);
    assert_eq!(i64::MIN.delta(i64::MAX), u64::MAX as i128);
}

#[test]
fn distance_saturates() {
    assert_eq!(3u8.distance(10), 7);
    assert_eq!(10u8.distance(3), 7);
    assert_eq!(i8::MIN.distance(i8::MAX), i8::MAX);
    assert_eq!((-3i8).distance(4), 7);
    assert_eq!(i64::MAX.distance(i64::MIN), i64::MAX);
    assert_eq!(isize::MIN.distance(0), isize::MAX);
    assert_eq!(u16::half_max(), 32767);
    assert_eq!(i8::half_max(), 63);
}

#[test]
fn colours_of_grey_pixels() {
    let luma = Pixel::new(ColorModel::LumaA, vec![5u8, 6]).unwrap();
    assert_eq!(luma.red(), Pixel::new(ColorModel::LumaA, vec![0u8, 255]).unwrap());
    assert_eq!(luma.green(), Pixel::new(ColorModel::LumaA, vec![255u8, 255]).unwrap());
    assert_eq!(luma.blue(), Pixel::new(ColorModel::LumaA, vec![127u8, 255]).unwrap());
    let rgb = Pixel::new(ColorModel::Rgb, vec![5u8, 6, 7]).unwrap();
    assert_eq!(rgb.red(), Pixel::new(ColorModel::Rgb, vec![255u8, 0, 0]).unwrap());
    assert_eq!(rgb.green(), Pixel::new(ColorModel::Rgb, vec![0u8, 255, 0]).unwrap());
    assert_eq!(rgb.blue(), Pixel::new(ColorModel::Rgb, vec![0u8, 0, 255]).unwrap());
}

#[test]
fn pixel_accessors() {
    let mut p = rgba(1, 2, 3, 4);
    assert!(p.is_alpha());
    assert!(p.is_rgb());
    assert_eq!(p.channels_no_alpha(), &[1, 2, 3]);
    assert_eq!(p.alpha(), Some(&4));
    *p.alpha_mut().unwrap() = 9;
    p.channels_no_alpha_mut()[0] = 7;
    assert_eq!(p, rgba(7, 2, 3, 9));
    let mut grey = Pixel::new(ColorModel::Luma, vec![5u8]).unwrap();
    assert!(!grey.is_alpha());
    assert!(!grey.is_rgb());
    assert_eq!(grey.channels_no_alpha(), &[5]);
    assert_eq!(grey.alpha(), None);
    assert!(grey.alpha_mut().is_none());
    grey.channels_no_alpha_mut()[0] = 6;
    assert_eq!(grey.channels, vec![6]);
}

#[test]
fn map2_with_alpha_keeps_the_two_rules_apart() {
    let l = rgba(1, 2, 3, 4);
    let r = rgba(10, 20, 30, 40);
    let out = l.map2_with_alpha(&r, |a, b| a + b, |a, b| b - a);
    assert_eq!(out, rgba(11, 22, 33, 36));
}

#[test]
fn pixel_rules_on_single_pixels() {
    let l = rgba(10, 200, 30, 255);
    let r = rgba(15, 100, 30, 128);
    assert_eq!(color_sub_pixel(&l, &r), rgba(5, 100, 0, 255));
    assert_eq!(heat_pixel(&l, &r), rgba(255, 0, 0, 255));
    assert_eq!(heat_pixel(&l, &l), l);
    let clear_l = rgba(1, 1, 1, 0);
    let clear_r = rgba(2, 2, 2, 0);
    assert_eq!(heat_pixel(&clear_l, &clear_r), clear_l);
}

#[test]
fn grids_are_checked_when_built() {
    assert!(Grid::<u8>::from_raw(ColorModel::Rgb, 2, 2, &[0; 11]).is_none());
    assert!(Grid::<u8>::from_raw(ColorModel::Rgb, 2, 2, &[0; 13]).is_none());
    let g = Grid::<u8>::from_raw(ColorModel::Rgb, 2, 2, &[0; 12]).unwrap();
    assert!(g.check());
    assert_eq!(g, Grid::new(ColorModel::Rgb, 2, 2));
    assert_eq!(g.to_raw(), vec![0u8; 12]);
    assert!(g.get_pixel_checked(1, 1).is_some());
    assert!(g.get_pixel_checked(2, 0).is_none());
    assert!(g.get_pixel_checked(0, 2).is_none());
    assert!(Pixel::new(ColorModel::Rgba, vec![1u8, 2, 3]).is_none());
    let bad = Grid { model: ColorModel::Luma, width: 2, height: 1, rows: vec![vec![Pixel::zeroed(ColorModel::Luma)]] };
    assert!(!Grid::<u8>::check(&bad));
    let empty = Grid::<u16>::from_raw(ColorModel::Luma, 0, 5, &[]).unwrap();
    assert_eq!(empty.to_raw(), Vec::<u16>::new());
}

#[test]
fn models_go_by_their_names() {
    assert_eq!(ColorModel::named("Y"), Some(ColorModel::Luma));
    assert_eq!(ColorModel::named("YA"), Some(ColorModel::LumaA));
    assert_eq!(ColorModel::named("RGB"), Some(ColorModel::Rgb));
    assert_eq!(ColorModel::named("RGBA"), Some(ColorModel::Rgba));
    assert_eq!(ColorModel::named(""), None);
    assert_eq!(ColorModel::named("BGR"), None);
    assert_eq!(ColorModel::named("RGBAA"), None);
    assert_eq!(ColorModel::Rgba.channel_count(), 4);
    assert_eq!(ColorModel::Rgba.color_count(), 3);
    assert_eq!(ColorModel::LumaA.color_count(), 1);
}
