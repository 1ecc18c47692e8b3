use smartdiff::diff::{diff_image, diff_image_list};
use smartdiff::room::Image;
use smartdiff::tile::Color;

fn painted_image() -> Image {
    let mut img = Image::new(2, 1);
    img.set_pixel(0, 0, Color { r: 100, g: 201, b: 50 });
    // Pixel (1, 0) stays transparent.
    img
}

#[test]
fn identical_images_diff_to_darkened_baseline() {
    let img = painted_image();
    let d = diff_image(&img, &img, 1, 2);
    assert_eq!(d.width, 2);
    assert_eq!(d.height, 1);
    // The painted pixel is darkened by 1/2, truncated toward zero, opaque.
    let c = d.get_pixel(0, 0);
    assert_eq!((c.r, c.g, c.b), (50, 100, 25));
    assert!(!d.get_transparent(0, 0));
    // The transparent baseline pixel stays untouched.
    assert!(d.get_transparent(1, 0));
    // No pixel is the white difference marker.
    let c1 = d.get_pixel(1, 0);
    assert!((c.r, c.g, c.b) != (255, 255, 255));
    assert!((c1.r, c1.g, c1.b) != (255, 255, 255));
}

#[test]
fn changed_pixels_diff_to_white() {
    let img1 = painted_image();
    let mut img2 = painted_image();
    img2.set_pixel(0, 0, Color { r: 99, g: 201, b: 50 });
    let d = diff_image(&img1, &img2, 1, 2);
    let c = d.get_pixel(0, 0);
    assert_eq!((c.r, c.g, c.b), (255, 255, 255));
    assert!(!d.get_transparent(0, 0));
    assert!(d.get_transparent(1, 0));
}

#[test]
fn asymmetry_keys_off_the_baseline() {
    // The candidate paints a pixel the baseline left transparent: the RGB
    // bytes still differ only if the stored bytes differ.  Painting black
    // onto zeroed bytes leaves RGB equal, so the rule falls through to the
    // baseline's transparency and leaves the pixel untouched.
    let img1 = painted_image();
    let mut img2 = painted_image();
    img2.set_pixel(1, 0, Color { r: 0, g: 0, b: 0 });
    let d = diff_image(&img1, &img2, 9, 10);
    assert!(d.get_transparent(1, 0));
}

#[test]
fn full_coefficient_keeps_the_baseline_color() {
    let img = painted_image();
    let d = diff_image(&img, &img, 1, 1);
    let c = d.get_pixel(0, 0);
    assert_eq!((c.r, c.g, c.b), (100, 201, 50));
}

#[test]
fn zero_coefficient_blacks_out_the_baseline() {
    let img = painted_image();
    let d = diff_image(&img, &img, 0, 7);
    let c = d.get_pixel(0, 0);
    assert_eq!((c.r, c.g, c.b), (0, 0, 0));
    assert!(!d.get_transparent(0, 0));
}

#[test]
fn image_lists_diff_pairwise() {
    let imgs1 = vec![painted_image(), painted_image(), painted_image()];
    let imgs2 = vec![painted_image(), painted_image()];
    let ds = diff_image_list(&imgs1, &imgs2, 3, 10);
    assert_eq!(ds.len(), 2);
    let c = ds[0].get_pixel(0, 0);
    assert_eq!((c.r, c.g, c.b), (30, 60, 15));
}
