use tinyrender::frame::PPM_MAGIC;
use tinyrender::segment;
use tinyrender::{Image, RGB};

#[test]
fn rgb_constructors() {
    let c = RGB::new(1, 2, 3);
    assert_eq!((c.r, c.g, c.b), (1, 2, 3));
    assert_eq!(RGB::red(), RGB::new(255, 0, 0));
    assert_eq!(RGB::green(), RGB::new(0, 255, 0));
    assert_eq!(RGB::blue(), RGB::new(0, 0, 255));
    assert_eq!(RGB::black(), RGB::new(0, 0, 0));
    assert_eq!(RGB::white(), RGB::new(255, 255, 255));
}

#[test]
fn new_image_is_black() {
    let img = Image::new(3, 2);
    assert_eq!((img.width, img.height), (3, 2));
    for y in 0..2 {
        for x in 0..3 {
            assert_eq!(img.get(x, y), RGB::black());
        }
    }
}

#[test]
fn set_changes_only_its_pixel() {
    let mut img = Image::new(3, 2);
    img.set(2, 1, RGB::red());
    assert_eq!(img.get(2, 1), RGB::red());
    assert_eq!(img.get(2, 0), RGB::black());
    assert_eq!(img.get(0, 1), RGB::black());
}

#[test]
fn ppm_has_bottom_row_last() {
    let mut img = Image::new(2, 2);
    img.set(0, 0, RGB::red());
    img.set(1, 1, RGB::new(7, 80, 123));
    let mut expected = PPM_MAGIC.to_vec();
    expected.extend_from_slice(b"\n2 2\n255\n0 0 0 7 80 123 255 0 0 0 0 0 ");
    assert_eq!(img.to_ppm(), expected);
}

#[test]
fn ppm_of_wide_image_header() {
    let img = Image::new(800, 10);
    let bytes = img.to_ppm();
    assert!(bytes.starts_with(&PPM_MAGIC));
    assert!(bytes[2..].starts_with(b"\n800 10\n255\n0 0 0 "));
    assert_eq!(bytes.len(), 2 + "\n800 10\n255\n".len() + 800 * 10 * 6);
}

#[test]
fn horizontal_line_excludes_last_end() {
    let mut img = Image::new(6, 3);
    segment::line(0, 1, 4, 1, &mut img, RGB::white());
    for x in 0..6 {
        let expected = if x < 4 { RGB::white() } else { RGB::black() };
        assert_eq!(img.get(x, 1), expected);
        assert_eq!(img.get(x, 0), RGB::black());
    }
}

#[test]
fn diagonal_and_steep_lines() {
    let mut img = Image::new(5, 5);
    segment::line(3, 3, 0, 0, &mut img, RGB::red());
    for i in 0..3 {
        assert_eq!(img.get(i, i), RGB::red());
    }
    assert_eq!(img.get(3, 3), RGB::black());

    let mut img = Image::new(5, 5);
    segment::line(1, 0, 2, 4, &mut img, RGB::green());
    // steep: one pixel per row 0..3
    assert_eq!(img.get(1, 0), RGB::green());
    assert_eq!(img.get(1, 1), RGB::green());
    assert_eq!(img.get(1, 2), RGB::green());
    assert_eq!(img.get(2, 3), RGB::green());
    assert_eq!(img.get(2, 4), RGB::black());
    let lit = (0..5).flat_map(|y| (0..5).map(move |x| (x, y))).filter(|&(x, y)| img.get(x, y) == RGB::green()).count();
    assert_eq!(lit, 4);
}
