use font_atlas::atlas_meta::{find_bounds, AtlasMeta, CharMeta, MetaError};
use font_atlas::bitmap::Bitmap;
use font_atlas::fnt::FntFile;
use font_atlas::font::{
    char_code_as_printable, Atlasable, CharacterSprite, FontError, FontIntermediate,
    TextCharacterAnimation,
};
use font_atlas::math::{IMargins, IRect, ISize};
use font_atlas::packing::PackError;
use font_atlas::sources::{
    LoadStep, SourceError, SourceId, SourceKind, SourceSprite, Sources,
};
use font_atlas::guess::{ceil_sqrt_u64, guess_side_len, next_power_of_two_u64};
use font_atlas::texture_atlas::TextureAtlas;
use image::{Rgba, RgbaImage};

fn dot(shade: u8) -> Bitmap {
    Bitmap { image: RgbaImage::from_pixel(1, 1, Rgba([shade, shade, shade, 255])) }
}

fn sprite(code: u32, frame: u32, width: i32, height: i32) -> CharacterSprite {
    CharacterSprite {
        char_code: code,
        sprite: SourceSprite {
            image_source_id: SourceId::Image(0),
            x: (code as i32) * 10,
            y: (frame as i32) * 10,
            width,
            height,
        },
        frame,
        x_offset: 1,
        y_offset: 2,
        x_advance: 5,
    }
}

fn font(name: &str, num_frames: u32, chars: Vec<CharacterSprite>) -> FontIntermediate {
    FontIntermediate {
        name: name.to_string(),
        animation: TextCharacterAnimation::NoAnimation,
        num_frames,
        line_height: 16,
        base: 12,
        chars,
    }
}

fn sources_with_font() -> (Sources, SourceId) {
    let mut sources: Sources = Sources::new();
    let description = "info face=\"tiny\" size=8\ncommon lineHeight=9 base=7\npage id=0 file=\"tiny.png\"\npage id=1 file=\"more.png\"\nchar id=65 x=1 y=2 width=3 height=4 xoffset=5 yoffset=6 xadvance=7 page=0\nchar id=66 x=8 y=9 width=10 height=11 xoffset=-1 yoffset=-2 xadvance=12 page=1\n";
    let fnt = FntFile::try_parse(description).unwrap();
    let id = sources.add_fnt("tiny.fnt".to_string(), "/fonts/tiny.fnt".to_string(), fnt);
    (sources, id)
}

#[test]
fn sources_are_found_by_alias() {
    let mut sources: Sources = Sources::new();
    assert_eq!(sources.find_id(&"a.png".to_string()), Err(SourceError::UnknownAlias));
    let a = sources.add_image("a.png".to_string(), "/x/a.png".to_string(), dot(1));
    let b = sources.add_image("b.png".to_string(), "/x/b.png".to_string(), dot(2));
    assert_eq!(a, SourceId::Image(0));
    assert_eq!(b, SourceId::Image(1));
    assert_eq!(sources.find_id(&"a.png".to_string()), Ok(a));
    assert_eq!(sources.find_id(&"b.png".to_string()), Ok(b));
    assert_eq!(sources.find_id(&"c.png".to_string()), Err(SourceError::UnknownAlias));
    assert_eq!(sources.get_image(b).unwrap().image, dot(2).image);
    assert_eq!(sources.get_path(a), Ok(&"/x/a.png".to_string()));
    assert_eq!(a.index(), 0);
    assert_eq!(b.index(), 1);
}

#[test]
fn alias_given_again_names_the_later_source() {
    let mut sources: Sources = Sources::new();
    sources.add_image("a.png".to_string(), "/x/a.png".to_string(), dot(1));
    let later = sources.add_image("a.png".to_string(), "/y/a.png".to_string(), dot(2));
    assert_eq!(sources.find_id(&"a.png".to_string()), Ok(later));
}

#[test]
fn source_ids_are_checked() {
    let (mut sources, fnt_id) = sources_with_font();
    let image_id = sources.add_image("tiny.png".to_string(), "/fonts/tiny.png".to_string(), dot(0));
    assert_eq!(sources.get_image(fnt_id).unwrap_err(), SourceError::IncompatibleSourceId);
    assert_eq!(sources.get_fnt(image_id).unwrap_err(), SourceError::IncompatibleSourceId);
    assert_eq!(sources.get_image(SourceId::Image(1)).unwrap_err(), SourceError::InvalidSourceId);
    assert_eq!(sources.get_fnt(SourceId::Fnt(1)).unwrap_err(), SourceError::InvalidSourceId);
    assert_eq!(sources.get_path(SourceId::Fnt(1)).unwrap_err(), SourceError::InvalidSourceId);
    assert_eq!(sources.get_path(SourceId::Image(9)).unwrap_err(), SourceError::InvalidSourceId);
    assert_eq!(sources.get_path(fnt_id), Ok(&"/fonts/tiny.fnt".to_string()));
    assert_eq!(sources.get_fnt(fnt_id).unwrap().chars.len(), 2);
}

#[test]
fn extension_tells_the_kind() {
    assert_eq!(SourceKind::from_extension("fnt"), Ok(SourceKind::Fnt));
    assert_eq!(SourceKind::from_extension("png"), Ok(SourceKind::Image));
    assert_eq!(SourceKind::from_extension("PNG"), Err(SourceError::UnrecognizedExtension));
    assert_eq!(SourceKind::from_extension(""), Err(SourceError::UnrecognizedExtension));
}

#[test]
fn loading_is_planned_by_name_and_extension() {
    let mut sources = Sources::new();
    let name = "a.png".to_string();
    assert_eq!(sources.plan_load(&name, "png"), Ok(LoadStep::Load(SourceKind::Image)));
    assert_eq!(sources.plan_load(&name, "fnt"), Ok(LoadStep::Load(SourceKind::Fnt)));
    assert_eq!(sources.plan_load(&name, "jpg"), Err(SourceError::UnrecognizedExtension));
    let id = sources.add_image(name.clone(), "/x/a.png".to_string(), dot(1));
    assert_eq!(sources.plan_load(&name, "png"), Ok(LoadStep::AlreadyLoaded(id)));
    assert_eq!(sources.plan_load(&name, "jpg"), Err(SourceError::UnrecognizedExtension));
    assert_eq!(
        sources.plan_load(&"b.png".to_string(), "png"),
        Ok(LoadStep::Load(SourceKind::Image))
    );
}

#[test]
fn source_sprite_fits_or_not() {
    let sprite = SourceSprite { image_source_id: SourceId::Image(0), x: 2, y: 3, width: 4, height: 5 };
    assert!(sprite.fits(6, 8));
    assert!(!sprite.fits(5, 8));
    assert!(!sprite.fits(6, 7));
    let negative = SourceSprite { x: -1, ..sprite };
    assert!(!negative.fits(100, 100));
    let huge = SourceSprite { x: i32::MAX, width: i32::MAX, ..sprite };
    assert!(huge.fits(u32::MAX, u32::MAX));
    assert!(!huge.fits(u32::MAX - 2, u32::MAX));
}

#[test]
fn description_names_its_images() {
    let (sources, id) = sources_with_font();
    let fnt = sources.get_fnt(id).unwrap();
    assert_eq!(fnt.dependencies(), vec!["tiny.png".to_string(), "more.png".to_string()]);
}

#[test]
fn font_is_made_of_a_description() {
    let (mut sources, id) = sources_with_font();
    let missing = FontIntermediate::from_fnt(id, &sources);
    assert_eq!(missing.unwrap_err(), FontError::Source(SourceError::UnknownAlias));
    let tiny = sources.add_image("tiny.png".to_string(), "/fonts/tiny.png".to_string(), dot(0));
    let more = sources.add_image("more.png".to_string(), "/fonts/more.png".to_string(), dot(0));
    let font = FontIntermediate::from_fnt(id, &sources).unwrap();
    assert_eq!(font.name, "tiny");
    assert_eq!(font.num_frames, 1);
    assert_eq!(font.line_height, 9);
    assert_eq!(font.base, 7);
    assert_eq!(
        font.chars,
        vec![
            CharacterSprite {
                char_code: 65,
                sprite: SourceSprite { image_source_id: tiny, x: 1, y: 2, width: 3, height: 4 },
                frame: 0,
                x_offset: 5,
                y_offset: 6,
                x_advance: 7,
            },
            CharacterSprite {
                char_code: 66,
                sprite: SourceSprite { image_source_id: more, x: 8, y: 9, width: 10, height: 11 },
                frame: 0,
                x_offset: -1,
                y_offset: -2,
                x_advance: 12,
            },
        ]
    );
    assert_eq!(font.get_sprite_sizes(), vec![ISize::new(3, 4), ISize::new(10, 11)]);
    assert_eq!(
        FontIntermediate::from_fnt(tiny, &sources).unwrap_err(),
        FontError::Source(SourceError::IncompatibleSourceId)
    );
    assert_eq!(
        FontIntermediate::from_fnt(SourceId::Fnt(5), &sources).unwrap_err(),
        FontError::Source(SourceError::InvalidSourceId)
    );
}

#[test]
fn glyph_on_unknown_page_is_refused() {
    let mut sources: Sources = Sources::new();
    let fnt = FntFile::try_parse("page id=0 file=\"a.png\"\nchar id=65 page=3\n").unwrap();
    assert_eq!(fnt.get_character_sprite(65, &sources).unwrap_err(), FontError::UnknownPage);
    assert_eq!(fnt.get_character_sprite(66, &sources).unwrap_err(), FontError::UnknownCharacter);
    let id = sources.add_fnt("a.fnt".to_string(), "/a.fnt".to_string(), fnt);
    assert_eq!(FontIntermediate::from_fnt(id, &sources).unwrap_err(), FontError::UnknownPage);
}

#[test]
fn glyph_codes_are_shown_as_characters() {
    assert_eq!(char_code_as_printable(65), 'A');
    assert_eq!(char_code_as_printable(0x20AC), '\u{20AC}');
    assert_eq!(char_code_as_printable(0), '\u{2327}');
    assert_eq!(char_code_as_printable(10), '\u{2327}');
    assert_eq!(char_code_as_printable(0x7F), '\u{2327}');
    assert_eq!(char_code_as_printable(0x9F), '\u{2327}');
    assert_eq!(char_code_as_printable(0xA0), '\u{A0}');
    assert_eq!(char_code_as_printable(0xD800), '\u{2327}');
    assert_eq!(char_code_as_printable(0x110000), '\u{2327}');
    assert_eq!(char_code_as_printable(0x10FFFF), '\u{10FFFF}');
}

#[test]
fn control_codes_agree_with_the_standard_library() {
    for code in 0u32..0x3000 {
        let expected = match char::from_u32(code) {
            Some(c) if !c.is_control() => c,
            _ => '\u{2327}',
        };
        assert_eq!(char_code_as_printable(code), expected);
    }
}

#[test]
fn roots_and_powers() {
    assert_eq!(ceil_sqrt_u64(0), 0);
    assert_eq!(ceil_sqrt_u64(1), 1);
    assert_eq!(ceil_sqrt_u64(2), 2);
    assert_eq!(ceil_sqrt_u64(4), 2);
    assert_eq!(ceil_sqrt_u64(5), 3);
    assert_eq!(ceil_sqrt_u64(1_000_000), 1000);
    assert_eq!(ceil_sqrt_u64(1_000_001), 1001);
    assert_eq!(ceil_sqrt_u64(u64::MAX), 0x1_0000_0000);
    assert_eq!(next_power_of_two_u64(0), 1);
    assert_eq!(next_power_of_two_u64(1), 1);
    assert_eq!(next_power_of_two_u64(2), 2);
    assert_eq!(next_power_of_two_u64(3), 4);
    assert_eq!(next_power_of_two_u64(1000), 1024);
    assert_eq!(next_power_of_two_u64(1024), 1024);
    assert_eq!(next_power_of_two_u64(1025), 2048);
    for n in 0u64..5000 {
        assert_eq!(next_power_of_two_u64(n), n.next_power_of_two());
    }
    assert_eq!(guess_side_len(0), 0);
    assert_eq!(guess_side_len(1), 0);
    assert_eq!(guess_side_len(2), 1);
    assert_eq!(guess_side_len(525), 16);
    assert_eq!(guess_side_len(1024), 16);
    assert_eq!(guess_side_len(1025), 32);
    assert_eq!(guess_side_len(u64::MAX), 0x8000_0000);
}

#[test]
fn new_atlas_is_empty() {
    let atlas = TextureAtlas::new(IMargins::uniform(2));
    assert!(atlas.fonts.is_empty());
    assert!(atlas.sprite_sizes.is_empty());
    assert!(atlas.sprite_bounds.is_empty());
    assert_eq!(atlas.padding, IMargins::uniform(2));
    assert_eq!(atlas.final_image_bounds, ISize::new(0, 0));
    assert_eq!(atlas.image_side_len_guess, 1);
    assert_eq!(atlas.max_side_len, 1024);
    assert_eq!(atlas.get_font_asset_id(3), 3);
}

#[test]
fn sizes_are_loaded_font_by_font() {
    let mut atlas = TextureAtlas::new(IMargins::uniform(0));
    atlas.with_font(font("a", 1, vec![sprite(65, 0, 10, 20), sprite(66, 0, 15, 20)]));
    atlas.with_font(font("b", 1, vec![sprite(65, 0, 5, 5)]));
    atlas.load_sizes();
    assert_eq!(
        atlas.sprite_sizes,
        vec![(0, 0, ISize::new(10, 20)), (0, 1, ISize::new(15, 20)), (1, 0, ISize::new(5, 5))]
    );
    // 200 + 300 + 25 pixels: the root is 23, the power of two above it 32.
    assert_eq!(atlas.image_side_len_guess, 16);
    atlas.load_sizes();
    assert_eq!(atlas.sprite_sizes.len(), 3);
}

#[test]
fn guess_of_an_empty_atlas_is_zero() {
    let mut atlas = TextureAtlas::new(IMargins::uniform(0));
    atlas.load_sizes();
    assert!(atlas.sprite_sizes.is_empty());
    assert_eq!(atlas.image_side_len_guess, 0);
    assert_eq!(atlas.pack(), Ok(()));
    assert_eq!(atlas.final_image_bounds, ISize::new(1, 1));
    assert!(atlas.sprite_bounds.is_empty());
}

#[test]
fn atlas_is_packed() {
    let mut atlas = TextureAtlas::new(IMargins::uniform(0));
    atlas.with_font(font("a", 1, vec![sprite(65, 0, 10, 20), sprite(66, 0, 15, 20)]));
    atlas.with_font(font("b", 1, vec![sprite(65, 0, 5, 5)]));
    atlas.load_sizes();
    assert_eq!(atlas.pack(), Ok(()));
    assert_eq!(atlas.final_image_bounds, ISize::new(32, 32));
    assert_eq!(
        atlas.sprite_bounds,
        vec![
            (0, 0, IRect::new(0, 0, 10, 20)),
            (0, 1, IRect::new(10, 0, 15, 20)),
            (1, 0, IRect::new(25, 0, 5, 5)),
        ]
    );
    let bounds = atlas.sprite_bounds.clone();
    assert_eq!(atlas.pack(), Ok(()));
    assert_eq!(atlas.sprite_bounds, bounds);
    assert_eq!(atlas.final_image_bounds, ISize::new(32, 32));
}

#[test]
fn negative_sizes_cannot_be_packed() {
    let mut atlas = TextureAtlas::new(IMargins::uniform(0));
    assert!(atlas.is_packable());
    atlas.with_font(font("a", 1, vec![sprite(65, 0, 4, 4), sprite(66, 0, -1, 4)]));
    assert!(atlas.is_packable());
    atlas.load_sizes();
    assert!(!atlas.is_packable());
    atlas.fonts[0].chars[1].sprite.width = 0;
    atlas.load_sizes();
    assert!(atlas.is_packable());
    atlas.padding = IMargins::new(0, 0, -1, 0);
    assert!(!atlas.is_packable());
    atlas.padding = IMargins::uniform(0);
    atlas.max_side_len = 0;
    assert!(!atlas.is_packable());
}

#[test]
fn failed_packing_keeps_no_places() {
    let mut atlas = TextureAtlas::new(IMargins::uniform(0));
    atlas.with_font(font("a", 1, vec![sprite(65, 0, 10, 10), sprite(66, 0, 2000, 2000)]));
    atlas.load_sizes();
    atlas.sprite_bounds.push((0, 0, IRect::new(0, 0, 1, 1)));
    let result = atlas.pack();
    assert!(matches!(result, Err(PackError::SpriteTooLarge { .. })));
    assert!(atlas.sprite_bounds.is_empty());
    assert_eq!(atlas.final_image_bounds, ISize::new(0, 0));
}

#[test]
fn one_attempt_fits_or_not() {
    let mut atlas = TextureAtlas::new(IMargins::uniform(1));
    atlas.with_font(font("a", 1, vec![sprite(65, 0, 4, 4), sprite(66, 0, 4, 6)]));
    atlas.load_sizes();
    assert!(!atlas.try_pack(11, 8));
    assert!(atlas.sprite_bounds.is_empty());
    assert!(atlas.try_pack(12, 8));
    assert_eq!(
        atlas.sprite_bounds,
        vec![(0, 1, IRect::new(1, 1, 4, 6)), (0, 0, IRect::new(7, 1, 4, 4))]
    );
    assert_eq!(atlas.sprite_sizes[0], (0, 0, ISize::new(4, 4)));
}

#[test]
fn bounds_are_found_by_sprite() {
    let placements = vec![
        (0usize, 0usize, IRect::new(0, 0, 1, 1)),
        (0, 1, IRect::new(1, 0, 1, 1)),
        (0, 0, IRect::new(2, 0, 1, 1)),
    ];
    assert_eq!(find_bounds(&placements, 0, 1), Some(IRect::new(1, 0, 1, 1)));
    assert_eq!(find_bounds(&placements, 0, 0), Some(IRect::new(2, 0, 1, 1)));
    assert_eq!(find_bounds(&placements, 1, 0), None);
}

#[test]
fn meta_lists_glyphs_by_code_and_frame() {
    let mut atlas = TextureAtlas::new(IMargins::uniform(0));
    atlas.with_font(font(
        "walk",
        2,
        vec![sprite(66, 1, 3, 3), sprite(65, 0, 4, 4), sprite(66, 0, 5, 5), sprite(65, 1, 6, 6)],
    ));
    atlas.with_font(font("still", 1, vec![sprite(33, 0, 2, 2)]));
    atlas.load_sizes();
    assert_eq!(atlas.pack(), Ok(()));
    let meta =
        AtlasMeta::from_texture_atlas("font-atlas".to_string(), "atlas.png".to_string(), &atlas)
            .unwrap();
    assert_eq!(meta.atlas_name, "font-atlas");
    assert_eq!(meta.texture_file, "atlas.png");
    assert_eq!(meta.width, atlas.final_image_bounds.width as u32);
    assert_eq!(meta.height, atlas.final_image_bounds.height as u32);
    assert_eq!(meta.fonts.len(), 2);
    assert_eq!(meta.fonts[0].name, "walk");
    assert_eq!(meta.fonts[0].num_animation_frames, 2);
    assert_eq!(meta.fonts[0].line_height, 16);
    assert_eq!(meta.fonts[0].base_line_y, 12);
    assert_eq!(
        meta.fonts[0].chars,
        vec![
            CharMeta { first_sprite_index: 0, char_code: 65, x_offset: 1, y_offset: 2, x_advance: 5 },
            CharMeta { first_sprite_index: 2, char_code: 66, x_offset: 1, y_offset: 2, x_advance: 5 },
        ]
    );
    assert_eq!(
        meta.fonts[1].chars,
        vec![CharMeta { first_sprite_index: 4, char_code: 33, x_offset: 1, y_offset: 2, x_advance: 5 }]
    );
    let place = |asset: usize, sprite: usize| find_bounds(&atlas.sprite_bounds, asset, sprite).unwrap();
    assert_eq!(meta.sprites, vec![place(0, 1), place(0, 3), place(0, 2), place(0, 0), place(1, 0)]);
    assert_eq!(meta.sprites[0].width(), 4);
    assert_eq!(meta.sprites[1].width(), 6);
    assert_eq!(meta.sprites[2].width(), 5);
    assert_eq!(meta.sprites[3].width(), 3);
}

fn meta_of(font: FontIntermediate) -> Result<AtlasMeta, MetaError> {
    let mut atlas = TextureAtlas::new(IMargins::uniform(0));
    atlas.with_font(font);
    atlas.load_sizes();
    assert_eq!(atlas.pack(), Ok(()));
    AtlasMeta::from_texture_atlas("a".to_string(), "a.png".to_string(), &atlas)
}

#[test]
fn meta_refuses_wrong_frames() {
    let missing = font("f", 2, vec![sprite(65, 0, 4, 4)]);
    assert_eq!(meta_of(missing).unwrap_err(), MetaError::FrameMismatch);
    let short = font("f", 2, vec![sprite(65, 0, 4, 4), sprite(66, 0, 4, 4), sprite(66, 1, 4, 4)]);
    assert_eq!(meta_of(short).unwrap_err(), MetaError::FrameMismatch);
    let twice = font("f", 1, vec![sprite(65, 0, 4, 4), sprite(65, 0, 4, 4)]);
    assert_eq!(meta_of(twice).unwrap_err(), MetaError::FrameMismatch);
    let skipped = font("f", 2, vec![sprite(65, 0, 4, 4), sprite(65, 2, 4, 4)]);
    assert_eq!(meta_of(skipped).unwrap_err(), MetaError::FrameMismatch);
    let none = font("f", 0, vec![sprite(65, 0, 4, 4)]);
    assert_eq!(meta_of(none).unwrap_err(), MetaError::FrameMismatch);
    let empty = font("f", 0, vec![]);
    assert!(meta_of(empty).unwrap().fonts[0].chars.is_empty());
}

#[test]
fn meta_refuses_frames_that_disagree() {
    let mut other = sprite(65, 1, 4, 4);
    other.x_advance = 9;
    let uneven = font("f", 2, vec![sprite(65, 0, 4, 4), other]);
    assert_eq!(meta_of(uneven).unwrap_err(), MetaError::InconsistentGlyph);
}

#[test]
fn meta_refuses_negative_measures() {
    let mut sunk = font("f", 1, vec![sprite(65, 0, 4, 4)]);
    sunk.base = -1;
    assert_eq!(meta_of(sunk).unwrap_err(), MetaError::NegativeMeasure);
    let mut atlas = TextureAtlas::new(IMargins::uniform(0));
    atlas.final_image_bounds = ISize::new(-1, 4);
    let meta = AtlasMeta::from_texture_atlas("a".to_string(), "a.png".to_string(), &atlas);
    assert_eq!(meta.unwrap_err(), MetaError::NegativeMeasure);
}

#[test]
fn meta_needs_a_place_for_every_sprite() {
    let mut atlas = TextureAtlas::new(IMargins::uniform(0));
    atlas.with_font(font("f", 1, vec![sprite(65, 0, 4, 4), sprite(66, 0, 4, 4)]));
    atlas.load_sizes();
    assert_eq!(atlas.pack(), Ok(()));
    atlas.sprite_bounds.pop();
    let meta = AtlasMeta::from_texture_atlas("a".to_string(), "a.png".to_string(), &atlas);
    assert_eq!(meta.unwrap_err(), MetaError::MissingBounds);
}

#[test]
fn failed_insert_adds_nothing() {
    let mut atlas = TextureAtlas::new(IMargins::uniform(0));
    atlas.with_font(font("f", 1, vec![sprite(65, 0, 4, 4)]));
    atlas.load_sizes();
    assert_eq!(atlas.pack(), Ok(()));
    let mut meta =
        AtlasMeta::from_texture_atlas("a".to_string(), "a.png".to_string(), &atlas).unwrap();
    let broken = font("g", 1, vec![sprite(65, 0, 4, 4), sprite(66, 1, 4, 4)]);
    assert_eq!(meta.insert_font(&broken, 0, &atlas.sprite_bounds), Err(MetaError::FrameMismatch));
    assert_eq!(meta.sprites.len(), 1);
    assert_eq!(meta.fonts.len(), 1);
    let fine = font("g", 1, vec![sprite(70, 0, 4, 4)]);
    assert_eq!(meta.insert_font(&fine, 0, &atlas.sprite_bounds), Ok(()));
    assert_eq!(meta.sprites.len(), 2);
    assert_eq!(meta.fonts[1].chars[0].first_sprite_index, 1);
}
