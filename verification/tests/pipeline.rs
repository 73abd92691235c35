use font_atlas::atlas_meta::AtlasMeta;
use font_atlas::bitmap::Bitmap;
use font_atlas::fnt::FntFile;
use font_atlas::font::FontIntermediate;
use font_atlas::math::IMargins;
use font_atlas::sources::{LoadStep, SourceKind, Sources};
use font_atlas::texture_atlas::TextureAtlas;
use image::{Rgba, RgbaImage};

const DESCRIPTION: &str = "info face=\"blocks\" size=8 bold=0 italic=0 charset=\"\" unicode=1 stretchH=100 smooth=0 aa=1 padding=0,0,0,0 spacing=1,1
common lineHeight=9 base=7 scaleW=16 scaleH=16 pages=1 packed=0
page id=0 file=\"blocks.png\"
chars count=4
char id=32 x=0 y=0 width=0 height=0 xoffset=0 yoffset=7 xadvance=3 page=0 chnl=15
char id=65 x=0 y=0 width=5 height=7 xoffset=0 yoffset=0 xadvance=6 page=0 chnl=15
char id=66 x=5 y=0 width=4 height=6 xoffset=1 yoffset=1 xadvance=6 page=0 chnl=15
char id=103 x=9 y=0 width=5 height=9 xoffset=0 yoffset=2 xadvance=6 page=0 chnl=15
";

fn colour(x: u32, y: u32) -> Rgba<u8> {
    Rgba([x as u8 * 16, y as u8 * 16, 77, 255])
}

fn load(sources: &mut Sources) -> FontIntermediate {
    let name = "blocks.fnt".to_string();
    assert_eq!(sources.plan_load(&name, "fnt"), Ok(LoadStep::Load(SourceKind::Fnt)));
    let fnt = FntFile::try_parse(DESCRIPTION).unwrap();
    let id = sources.add_fnt(name, "/fonts/blocks.fnt".to_string(), fnt);
    for file in sources.get_fnt(id).unwrap().dependencies() {
        assert_eq!(sources.plan_load(&file, "png"), Ok(LoadStep::Load(SourceKind::Image)));
        let image = Bitmap { image: RgbaImage::from_fn(16, 16, colour) };
        sources.add_image(file, "/fonts/blocks.png".to_string(), image);
    }
    FontIntermediate::from_fnt(id, sources).unwrap()
}

#[test]
fn description_becomes_an_atlas() {
    let mut sources = Sources::new();
    let font = load(&mut sources);
    assert_eq!(font.name, "blocks");
    assert_eq!(font.chars.len(), 4);

    let mut atlas = TextureAtlas::new(IMargins::uniform(1));
    atlas.with_font(font);
    atlas.load_sizes();
    assert!(atlas.is_packable());
    assert_eq!(atlas.pack(), Ok(()));

    let image = atlas.build_image(&sources).unwrap().image;
    for (asset, sprite, bounds) in atlas.sprite_bounds.iter() {
        let source = atlas.fonts[*asset].chars[*sprite].sprite;
        for j in 0..source.height {
            for i in 0..source.width {
                let placed = image.get_pixel((bounds.min.x + i) as u32, (bounds.min.y + j) as u32);
                assert_eq!(*placed, colour((source.x + i) as u32, (source.y + j) as u32));
            }
        }
    }

    let meta =
        AtlasMeta::from_texture_atlas("blocks".to_string(), "blocks.png".to_string(), &atlas)
            .unwrap();
    assert_eq!(meta.width, image.width());
    assert_eq!(meta.height, image.height());
    assert_eq!(meta.sprites.len(), 4);
    let codes: Vec<u32> = meta.fonts[0].chars.iter().map(|glyph| glyph.char_code).collect();
    assert_eq!(codes, vec![32, 65, 66, 103]);
    for glyph in meta.fonts[0].chars.iter() {
        let sprite = atlas.fonts[0].chars.iter().find(|s| s.char_code == glyph.char_code).unwrap();
        let bounds = meta.sprites[glyph.first_sprite_index as usize];
        assert_eq!(bounds.width(), sprite.sprite.width);
        assert_eq!(bounds.height(), sprite.sprite.height);
        assert_eq!(glyph.x_advance, sprite.x_advance);
    }

    let text = atlas.fonts[0].render_text("A gB", &sources).unwrap().image;
    assert_eq!(text.height(), 9);
    assert_eq!(text.width(), 20);
    assert_eq!(*text.get_pixel(0, 0), colour(0, 0));
}

#[test]
fn loaded_file_is_not_read_again() {
    let mut sources = Sources::new();
    let _ = load(&mut sources);
    let id = sources.find_id(&"blocks.png".to_string()).unwrap();
    assert_eq!(
        sources.plan_load(&"blocks.png".to_string(), "png"),
        Ok(LoadStep::AlreadyLoaded(id))
    );
}
