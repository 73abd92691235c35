use font_atlas::bitmap::Bitmap;
use font_atlas::font::{CharacterSprite, FontIntermediate, TextCharacterAnimation};
use font_atlas::render::RenderError;
use font_atlas::sources::{SourceError, SourceId, SourceSprite, Sources};
use image::{Pixel, Rgba, RgbaImage};

fn ink(x: u32, y: u32) -> Rgba<u8> {
    Rgba([10 * x as u8, 20 * y as u8, 200, if (x + y) % 2 == 0 { 255 } else { 90 }])
}

fn sources() -> Sources {
    let mut sources: Sources = Sources::new();
    sources.add_image(
        "ink.png".to_string(),
        "/ink.png".to_string(),
        Bitmap { image: RgbaImage::from_fn(8, 8, ink) },
    );
    sources
}

fn glyph(code: char, x: i32, width: i32, x_offset: i32, y_offset: i32, x_advance: i32) -> CharacterSprite {
    CharacterSprite {
        char_code: code as u32,
        sprite: SourceSprite { image_source_id: SourceId::Image(0), x, y: 1, width, height: 3 },
        frame: 0,
        x_offset,
        y_offset,
        x_advance,
    }
}

fn font() -> FontIntermediate {
    FontIntermediate {
        name: "ink".to_string(),
        animation: TextCharacterAnimation::NoAnimation,
        num_frames: 1,
        line_height: 6,
        base: 4,
        chars: vec![glyph('a', 0, 2, 0, 1, 3), glyph('b', 3, 4, 1, 2, 5), glyph('a', 6, 1, 0, 0, 1)],
    }
}

fn expected(text: &str) -> RgbaImage {
    let font = font();
    let source = RgbaImage::from_fn(8, 8, ink);
    let mut pen = 0;
    let mut reach = 0;
    for ch in text.chars() {
        let glyph = font.chars.iter().find(|g| g.char_code == ch as u32).unwrap();
        reach = reach.max(pen + glyph.x_offset + glyph.sprite.width);
        pen += glyph.x_advance;
    }
    let mut image = RgbaImage::new(reach as u32, font.line_height as u32);
    for x in 0..reach as u32 {
        if x % 3 != 2 {
            image.put_pixel(x, font.base as u32, Rgba([128, 128, 128, 255]));
        }
    }
    pen = 0;
    for ch in text.chars() {
        let glyph = font.chars.iter().find(|g| g.char_code == ch as u32).unwrap();
        for j in 0..glyph.sprite.height {
            for i in 0..glyph.sprite.width {
                let x = pen + glyph.x_offset + i;
                let y = glyph.y_offset + j;
                if x >= 0 && y >= 0 && x < reach && y < font.line_height {
                    let top = *source.get_pixel((glyph.sprite.x + i) as u32, (glyph.sprite.y + j) as u32);
                    let mut under = *image.get_pixel(x as u32, y as u32);
                    under.blend(&top);
                    image.put_pixel(x as u32, y as u32, under);
                }
            }
        }
        pen += glyph.x_advance;
    }
    image
}

#[test]
fn text_is_set_glyph_by_glyph() {
    let image = font().render_text("abba", &sources()).unwrap().image;
    assert_eq!(image.dimensions(), (15, 6));
    assert_eq!(image, expected("abba"));
    assert_eq!(*image.get_pixel(1, 1), ink(1, 1));
    assert_eq!(*image.get_pixel(13, 4), Rgba([128, 128, 128, 255]));
    assert_eq!(*image.get_pixel(14, 4), Rgba([0, 0, 0, 0]));
    assert_eq!(*image.get_pixel(14, 0), Rgba([0, 0, 0, 0]));
}

#[test]
fn base_line_is_dotted() {
    let image = font().render_text("b", &sources()).unwrap().image;
    assert_eq!(image.dimensions(), (5, 6));
    assert_eq!(*image.get_pixel(0, 4), Rgba([128, 128, 128, 255]));
    assert_eq!(*image.get_pixel(2, 5), Rgba([0, 0, 0, 0]));
    assert_eq!(image, expected("b"));
}

#[test]
fn empty_text_gives_an_empty_image() {
    let image = font().render_text("", &sources()).unwrap().image;
    assert_eq!(image.dimensions(), (0, 6));
}

#[test]
fn first_sprite_of_a_glyph_is_found() {
    let font = font();
    assert_eq!(font.find_sprite('a' as u32), 0);
    assert_eq!(font.find_sprite('b' as u32), 1);
    assert_eq!(font.find_sprite('c' as u32), 3);
}

#[test]
fn text_without_glyph_is_refused() {
    assert_eq!(font().render_text("abc", &sources()).unwrap_err(), RenderError::MissingGlyph);
}

#[test]
fn text_beyond_the_numbers_is_refused() {
    let mut wide = font();
    wide.chars[0].x_advance = i32::MAX;
    assert_eq!(wide.render_text("aa", &sources()).unwrap_err(), RenderError::TextTooWide);
}

#[test]
fn wrong_measures_are_refused() {
    let mut sunk = font();
    sunk.base = 6;
    assert_eq!(sunk.render_text("a", &sources()).unwrap_err(), RenderError::InvalidMeasure);
    assert_eq!(sunk.render_text("", &sources()).unwrap().image.dimensions(), (0, 6));
    sunk.base = -1;
    assert_eq!(sunk.render_text("a", &sources()).unwrap_err(), RenderError::InvalidMeasure);
    let mut flat = font();
    flat.line_height = -1;
    assert_eq!(flat.render_text("", &sources()).unwrap_err(), RenderError::InvalidMeasure);
}

#[test]
fn sprite_without_pixels_is_refused() {
    let mut lost = font();
    lost.chars[1].sprite.x = 7;
    assert_eq!(
        lost.render_text("ab", &sources()).unwrap_err(),
        RenderError::Source(SourceError::SpriteOutOfBounds)
    );
    assert!(lost.render_text("a", &sources()).is_ok());
}

#[test]
fn sprites_are_cut_at_the_edges() {
    let mut shifted = font();
    shifted.chars[0].x_offset = -1;
    shifted.chars[0].y_offset = 5;
    let image = shifted.render_text("a", &sources()).unwrap().image;
    assert_eq!(image.dimensions(), (1, 6));
    assert_eq!(*image.get_pixel(0, 5), ink(1, 1));
}
