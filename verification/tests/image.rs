use rusty_rays::image::{Image, ImageIterator, PixelColor, PixelCoord};

#[test]
fn new_image_is_black() {
    let img = Image::new(3, 2);
    assert_eq!(img.width(), 3);
    assert_eq!(img.height(), 2);
    for y in 0..2 {
        for x in 0..3 {
            let c = img.get_color(&PixelCoord { x, y });
            assert_eq!(c, PixelColor { r: 0, g: 0, b: 0 });
        }
    }
}

#[test]
fn set_then_get_returns_the_color() {
    let mut img = Image::new(4, 4);
    let p = PixelCoord { x: 2, y: 3 };
    let c = PixelColor { r: 10, g: 20, b: 30 };
    img.set_color(&p, &c);
    assert_eq!(img.get_color(&p), c);
}

#[test]
fn set_color_leaves_other_pixels() {
    let mut img = Image::new(3, 3);
    let p = PixelCoord { x: 1, y: 1 };
    img.set_color(&p, &PixelColor { r: 255, g: 255, b: 255 });
    for y in 0..3 {
        for x in 0..3 {
            let expected = if x == 1 && y == 1 {
                PixelColor { r: 255, g: 255, b: 255 }
            } else {
                PixelColor { r: 0, g: 0, b: 0 }
            };
            assert_eq!(img.get_color(&PixelCoord { x, y }), expected);
        }
    }
}

#[test]
fn iterator_scans_top_row_first_left_to_right() {
    let img = Image::new(2, 2);
    let mut it: ImageIterator = img.iter();
    assert_eq!(it.next(), Some(PixelCoord { x: 0, y: 1 }));
    assert_eq!(it.next(), Some(PixelCoord { x: 1, y: 1 }));
    assert_eq!(it.next(), Some(PixelCoord { x: 0, y: 0 }));
    assert_eq!(it.next(), Some(PixelCoord { x: 1, y: 0 }));
    assert_eq!(it.next(), None);
    assert_eq!(it.next(), None);
}

#[test]
fn iterator_covers_every_pixel_exactly_once() {
    let img = Image::new(5, 3);
    let mut it = img.iter();
    let mut seen: Vec<PixelCoord> = Vec::new();
    while let Some(p) = it.next() {
        seen.push(p);
    }
    assert_eq!(seen.len(), 15);
    for y in 0..3u16 {
        for x in 0..5u16 {
            let hits = seen.iter().filter(|p| p.x == x && p.y == y).count();
            assert_eq!(hits, 1);
        }
    }
}

#[test]
fn iterator_on_single_pixel_image() {
    let img = Image::new(1, 1);
    let mut it = img.iter();
    assert_eq!(it.next(), Some(PixelCoord { x: 0, y: 0 }));
    assert_eq!(it.next(), None);
}

#[test]
fn writes_to_distinct_pixels_commute() {
    let p1 = PixelCoord { x: 0, y: 2 };
    let p2 = PixelCoord { x: 3, y: 1 };
    let k1 = PixelColor { r: 1, g: 2, b: 3 };
    let k2 = PixelColor { r: 4, g: 5, b: 6 };

    let mut one = Image::new(4, 3);
    one.set_color(&p1, &k1);
    one.set_color(&p2, &k2);

    let mut other = Image::new(4, 3);
    other.set_color(&p2, &k2);
    other.set_color(&p1, &k1);

    for y in 0..3 {
        for x in 0..4 {
            let p = PixelCoord { x, y };
            assert_eq!(one.get_color(&p), other.get_color(&p));
        }
    }
}
