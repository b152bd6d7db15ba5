use mdprint::{RenderError, Rgb, RgbImage, StrikeColors};

const WHITE: Rgb = Rgb { r: 255, g: 255, b: 255 };
const BLACK: Rgb = Rgb { r: 0, g: 0, b: 0 };
const RED: Rgb = Rgb { r: 255, g: 0, b: 0 };

#[test]
fn nearest_colors() {
    let mono = StrikeColors::new(false);
    let bi = StrikeColors::new(true);
    assert_eq!(mono.map_color(WHITE), WHITE);
    assert_eq!(mono.map_color(RED), BLACK);
    assert_eq!(bi.map_color(RED), RED);
    assert_eq!(bi.map_color(Rgb { r: 200, g: 30, b: 40 }), RED);
    assert_eq!(mono.map_color(Rgb { r: 100, g: 100, b: 100 }), BLACK);
    assert_eq!(mono.map_color(Rgb { r: 160, g: 160, b: 160 }), WHITE);
}

#[test]
fn palette_lookup() {
    let bi = StrikeColors::new(true);
    assert_eq!(bi.index_of(RED), 2);
    assert_eq!(bi.index_of(Rgb { r: 1, g: 2, b: 3 }), 0);
    assert_eq!(bi.lookup(1), Some(BLACK));
    assert_eq!(bi.lookup(3), None);
}

#[test]
fn white_image_strikes_nothing() {
    let mono = StrikeColors::new(false);
    let img = RgbImage { width: 3, height: 2, pixels: vec![WHITE; 6] };
    let s = mono.map_dithered(&img).unwrap();
    assert!(s.pixels.iter().all(|p| p.0 == [0, 0]));
}

#[test]
fn red_image_strikes_red() {
    let bi = StrikeColors::new(true);
    let img = RgbImage { width: 2, height: 2, pixels: vec![RED; 4] };
    let s = bi.map_dithered(&img).unwrap();
    assert!(s.pixels.iter().all(|p| p.0 == [0, 1]));
    let black = RgbImage { width: 1, height: 1, pixels: vec![BLACK] };
    assert_eq!(bi.map_dithered(&black).unwrap().pixels[0].0, [1, 0]);
}

#[test]
fn off_palette_pixel_is_an_error() {
    let mono = StrikeColors::new(false);
    let img = RgbImage { width: 1, height: 1, pixels: vec![RED] };
    assert!(matches!(mono.map_dithered(&img), Err(RenderError::UnexpectedPixel)));
}


#[test]
fn nearest_without_dithering() {
    let mono = StrikeColors::new(false);
    let img = RgbImage { width: 1, height: 3, pixels: vec![Rgb { r: 250, g: 240, b: 230 }, RED, Rgb { r: 20, g: 20, b: 20 }] };
    let mapped = mono.map_nearest(&img);
    assert_eq!((mapped.width, mapped.height), (1, 3));
    assert_eq!(mapped.pixels, vec![WHITE, BLACK, BLACK]);
}
