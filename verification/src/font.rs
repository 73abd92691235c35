//! A font as the atlas sees it: a list of sprites, one per glyph and
//! animation frame, each with the rectangle of a source image that holds
//! its pixels.

use vstd::prelude::*;
use crate::bitmap::{Bitmap, Picture};
use crate::fnt::{FntChar, FntFile, FntFileView, FntPageView};
use crate::math::ISize;
use crate::sources::{sprite_picture, SourceError, SourceId, SourceSprite, Sources};

verus! {

/// How the frames of a glyph follow each other.
#[derive(Debug, Clone, Copy, PartialEq, Eq, Structural)]
pub enum TextCharacterAnimation {
    NoAnimation,
}

/// One frame of one glyph.
#[derive(Debug, Clone, Copy, PartialEq, Eq, Structural)]
pub struct CharacterSprite {
    pub char_code: u32,
    pub sprite: SourceSprite,
    pub frame: u32,
    pub x_offset: i32,
    pub y_offset: i32,
    pub x_advance: i32,
}

/// A font whose sprites still lie in their source images.
#[derive(Debug, Clone)]
pub struct FontIntermediate {
    pub name: String,
    pub animation: TextCharacterAnimation,
    pub num_frames: u32,
    pub line_height: i32,
    pub base: i32,
    pub chars: Vec<CharacterSprite>,
}

/// Why a font could not be made of a description.
#[derive(Debug, Clone, Copy, PartialEq, Eq, Structural)]
pub enum FontError {
    /// The description, or the image of one of its pages, was not loaded.
    Source(SourceError),
    /// The description has no glyph with the code that was asked for.
    UnknownCharacter,
    /// A glyph lies on a page that the description does not have.
    UnknownPage,
    /// The font has no sprite with the number that was asked for.
    UnknownSprite,
}

/// A collection of sprites that an atlas can hold.
pub trait Atlasable {
    /// The sizes of the sprites, in their order.
    spec fn sprite_sizes(&self) -> Seq<ISize>;

    /// The sizes of the sprites, in their order.
    fn get_sprite_sizes(&self) -> (sizes: Vec<ISize>)
        ensures
            sizes@ == self.sprite_sizes(),
    ;

    /// The pixels of the sprite with the number `index`, or why they
    /// cannot be had.
    spec fn sprite_texture(&self, index: usize, srcs: Sources) -> Result<
        Picture,
        FontError,
    >;

    /// The pixels of the sprite with the number `index`, as an image of
    /// their own.
    fn get_sprite_texture(&self, index: usize, srcs: &Sources) -> (texture: Result<
        Bitmap,
        FontError,
    >)
        ensures
            texture matches Ok(t) ==> self.sprite_texture(index, *srcs) == Ok::<Picture, FontError>(
                t@,
            ),
            texture matches Err(e) ==> self.sprite_texture(index, *srcs) == Err::<
                Picture,
                FontError,
            >(e),
    ;
}

/// The position of the first glyph with the code `id`, or the number of
/// glyphs when there is none.
pub open spec fn glyph_index(glyphs: Seq<FntChar>, id: u32) -> int
    decreases glyphs.len(),
{
    if glyphs.len() == 0 || glyphs[0].id == id {
        0
    } else {
        1 + glyph_index(glyphs.skip(1), id)
    }
}

/// The position of the first page with the number `id`, or the number of
/// pages when there is none.
pub open spec fn page_index(pages: Seq<FntPageView>, id: u32) -> int
    decreases pages.len(),
{
    if pages.len() == 0 || pages[0].id == id {
        0
    } else {
        1 + page_index(pages.skip(1), id)
    }
}

proof fn lemma_glyph_index(glyphs: Seq<FntChar>, id: u32, i: int)
    requires
        0 <= i <= glyphs.len(),
        forall|j: int| 0 <= j < i ==> glyphs[j].id != id,
        i < glyphs.len() ==> glyphs[i].id == id,
    ensures
        glyph_index(glyphs, id) == i,
    decreases glyphs.len(),
{
    if glyphs.len() == 0 || glyphs[0].id == id {
    } else {
        let rest = glyphs.skip(1);
        assert forall|j: int| 0 <= j < i - 1 implies rest[j].id != id by {
            assert(rest[j] == glyphs[j + 1]);
        }
        lemma_glyph_index(rest, id, i - 1);
    }
}

proof fn lemma_page_index(pages: Seq<FntPageView>, id: u32, i: int)
    requires
        0 <= i <= pages.len(),
        forall|j: int| 0 <= j < i ==> pages[j].id != id,
        i < pages.len() ==> pages[i].id == id,
    ensures
        page_index(pages, id) == i,
    decreases pages.len(),
{
    if pages.len() == 0 || pages[0].id == id {
    } else {
        let rest = pages.skip(1);
        assert forall|j: int| 0 <= j < i - 1 implies rest[j].id != id by {
            assert(rest[j] == pages[j + 1]);
        }
        lemma_page_index(rest, id, i - 1);
    }
}

/// The sprite of the first glyph with the code `char_id`: the rectangle
/// that the description gives, in the image that was loaded under the file
/// name of the glyph's page.
pub open spec fn character_sprite(
    fnt: FntFileView,
    aliases: Map<Seq<char>, SourceId>,
    char_id: u32,
) -> Result<SourceSprite, FontError> {
    let at = glyph_index(fnt.chars, char_id);
    if at >= fnt.chars.len() {
        Err(FontError::UnknownCharacter)
    } else {
        let glyph = fnt.chars[at];
        let on = page_index(fnt.pages, glyph.page);
        if on >= fnt.pages.len() {
            Err(FontError::UnknownPage)
        } else if !aliases.contains_key(fnt.pages[on].file) {
            Err(FontError::Source(SourceError::UnknownAlias))
        } else {
            Ok(
                SourceSprite {
                    image_source_id: aliases[fnt.pages[on].file],
                    x: glyph.x,
                    y: glyph.y,
                    width: glyph.width,
                    height: glyph.height,
                },
            )
        }
    }
}

/// The frame of a font that is made of the glyph `glyph`.
pub open spec fn sprite_of_glyph(
    fnt: FntFileView,
    aliases: Map<Seq<char>, SourceId>,
    glyph: FntChar,
) -> Result<CharacterSprite, FontError> {
    match character_sprite(fnt, aliases, glyph.id) {
        Ok(sprite) => Ok(
            CharacterSprite {
                char_code: glyph.id,
                sprite,
                frame: 0,
                x_offset: glyph.x_offset,
                y_offset: glyph.y_offset,
                x_advance: glyph.x_advance,
            },
        ),
        Err(e) => Err(e),
    }
}

/// The frames that are made of the first `n` glyphs of a description, or
/// why the first glyph that has none has none.
pub open spec fn sprites_of_glyphs(fnt: FntFileView, aliases: Map<Seq<char>, SourceId>, n: nat)
    -> Result<Seq<CharacterSprite>, FontError>
    decreases n,
{
    if n == 0 {
        Ok(Seq::empty())
    } else {
        match sprites_of_glyphs(fnt, aliases, (n - 1) as nat) {
            Ok(sprites) => match sprite_of_glyph(fnt, aliases, fnt.chars[n - 1]) {
                Ok(sprite) => Ok(sprites.push(sprite)),
                Err(e) => Err(e),
            },
            Err(e) => Err(e),
        }
    }
}

proof fn lemma_sprites_refusal_stays(
    fnt: FntFileView,
    aliases: Map<Seq<char>, SourceId>,
    k: nat,
    n: nat,
)
    requires
        k <= n,
        sprites_of_glyphs(fnt, aliases, k) is Err,
    ensures
        sprites_of_glyphs(fnt, aliases, n) == sprites_of_glyphs(fnt, aliases, k),
    decreases n,
{
    if k < n {
        lemma_sprites_refusal_stays(fnt, aliases, k, (n - 1) as nat);
    }
}

impl FntFile {
    /// The sprite of the first glyph with the code `char_id`.
    pub fn get_character_sprite(&self, char_id: u32, srcs: &Sources) -> (sprite: Result<
        SourceSprite,
        FontError,
    >)
        ensures
            sprite == character_sprite(self@, srcs.aliases(), char_id),
    {
        let mut at: usize = 0;
        while at < self.chars.len() && self.chars[at].id != char_id
            invariant
                at <= self.chars@.len(),
                forall|j: int| 0 <= j < at ==> self.chars@[j].id != char_id,
            decreases self.chars.len() - at,
        {
            at += 1;
        }
        proof {
            lemma_glyph_index(self@.chars, char_id, at as int);
        }
        if at >= self.chars.len() {
            return Err(FontError::UnknownCharacter);
        }
        let glyph = self.chars[at];
        let mut on: usize = 0;
        while on < self.pages.len() && self.pages[on].id != glyph.page
            invariant
                on <= self.pages@.len(),
                forall|j: int| 0 <= j < on ==> self@.pages[j].id != glyph.page,
            decreases self.pages.len() - on,
        {
            on += 1;
        }
        proof {
            lemma_page_index(self@.pages, glyph.page, on as int);
        }
        if on >= self.pages.len() {
            return Err(FontError::UnknownPage);
        }
        match srcs.find_id(&self.pages[on].file) {
            Ok(id) => Ok(
                SourceSprite {
                    image_source_id: id,
                    x: glyph.x,
                    y: glyph.y,
                    width: glyph.width,
                    height: glyph.height,
                },
            ),
            Err(e) => Err(FontError::Source(e)),
        }
    }
}

impl FontIntermediate {
    /// Makes a font of the description that `fnt_src_id` names. Each glyph
    /// of the description gives one sprite, in the order of the glyphs.
    pub fn from_fnt(fnt_src_id: SourceId, srcs: &Sources) -> (font: Result<Self, FontError>)
        ensures
            match fnt_src_id {
                SourceId::Fnt(i) => if i < srcs.fnt_files@.len() {
                    let fnt = srcs.fnt_files@[i as int].1;
                    match sprites_of_glyphs(fnt@, srcs.aliases(), fnt.chars@.len()) {
                        Ok(sprites) => {
                            &&& font matches Ok(f)
                            &&& f.name@ == fnt.info.face@
                            &&& f.animation == TextCharacterAnimation::NoAnimation
                            &&& f.num_frames == 1
                            &&& f.line_height == fnt.common.line_height
                            &&& f.base == fnt.common.base
                            &&& f.chars@ == sprites
                        },
                        Err(e) => font matches Err(x) && x == e,
                    }
                } else {
                    font matches Err(e) && e == FontError::Source(SourceError::InvalidSourceId)
                },
                SourceId::Image(_) => font matches Err(e) && e == FontError::Source(
                    SourceError::IncompatibleSourceId,
                ),
            },
    {
        let fnt = match srcs.get_fnt(fnt_src_id) {
            Ok(fnt) => fnt,
            Err(e) => {
                return Err(FontError::Source(e));
            },
        };
        let mut chars: Vec<CharacterSprite> = Vec::with_capacity(fnt.chars.len());
        let mut i: usize = 0;
        while i < fnt.chars.len()
            invariant
                i <= fnt.chars@.len(),
                fnt_src_id matches SourceId::Fnt(k) && k < srcs.fnt_files@.len() && *fnt
                    == srcs.fnt_files@[k as int].1,
                sprites_of_glyphs(fnt@, srcs.aliases(), i as nat) == Ok::<
                    Seq<CharacterSprite>,
                    FontError,
                >(chars@),
            decreases fnt.chars.len() - i,
        {
            let c = fnt.chars[i];
            match fnt.get_character_sprite(c.id, srcs) {
                Ok(sprite) => {
                    chars.push(
                        CharacterSprite {
                            char_code: c.id,
                            sprite,
                            frame: 0,
                            x_offset: c.x_offset,
                            y_offset: c.y_offset,
                            x_advance: c.x_advance,
                        },
                    );
                },
                Err(e) => {
                    proof {
                        lemma_sprites_refusal_stays(
                            fnt@,
                            srcs.aliases(),
                            (i + 1) as nat,
                            fnt.chars@.len(),
                        );
                    }
                    return Err(e);
                },
            }
            i += 1;
        }
        Ok(
            Self {
                name: fnt.info.face.clone(),
                animation: TextCharacterAnimation::NoAnimation,
                num_frames: 1,
                line_height: fnt.common.line_height,
                base: fnt.common.base,
                chars,
            },
        )
    }
}

impl CharacterSprite {
    /// The pixels of the sprite, as an image of their own.
    pub fn get_sprite_texture_view(&self, srcs: &Sources) -> (picture: Result<
        Bitmap,
        SourceError,
    >)
        ensures
            picture matches Ok(p) ==> sprite_picture(self.sprite, *srcs) == Ok::<
                Picture,
                SourceError,
            >(p@),
            picture matches Err(e) ==> sprite_picture(self.sprite, *srcs) == Err::<
                Picture,
                SourceError,
            >(e),
    {
        self.sprite.get_image(srcs)
    }
}

impl Atlasable for FontIntermediate {
    open spec fn sprite_sizes(&self) -> Seq<ISize> {
        Seq::new(
            self.chars@.len(),
            |i: int| ISize { width: self.chars@[i].sprite.width, height: self.chars@[i].sprite.height },
        )
    }

    open spec fn sprite_texture(&self, index: usize, srcs: Sources) -> Result<
        Picture,
        FontError,
    > {
        if index >= self.chars@.len() {
            Err(FontError::UnknownSprite)
        } else {
            match sprite_picture(self.chars@[index as int].sprite, srcs) {
                Ok(picture) => Ok(picture),
                Err(e) => Err(FontError::Source(e)),
            }
        }
    }

    fn get_sprite_texture(&self, index: usize, srcs: &Sources) -> (texture: Result<
        Bitmap,
        FontError,
    >) {
        if index >= self.chars.len() {
            return Err(FontError::UnknownSprite);
        }
        match self.chars[index].get_sprite_texture_view(srcs) {
            Ok(picture) => Ok(picture),
            Err(e) => Err(FontError::Source(e)),
        }
    }

    fn get_sprite_sizes(&self) -> (sizes: Vec<ISize>) {
        let mut sizes: Vec<ISize> = Vec::new();
        let mut i: usize = 0;
        while i < self.chars.len()
            invariant
                i <= self.chars@.len(),
                sizes@ == self.sprite_sizes().take(i as int),
            decreases self.chars.len() - i,
        {
            let ch = self.chars[i];
            sizes.push(ISize::new(ch.sprite.width, ch.sprite.height));
            assert(sizes@ =~= self.sprite_sizes().take(i + 1));
            i += 1;
        }
        assert(sizes@ =~= self.sprite_sizes());
        sizes
    }
}

/// `code` is the number of a character: any number up to `0x10FFFF` that
/// is not one of the surrogates.
pub open spec fn is_char_code(code: u32) -> bool {
    code < 0xD800 || 0xE000 <= code <= 0x10FFFF
}

/// `code` is the number of a control character.
pub open spec fn is_control_code(code: u32) -> bool {
    code <= 0x1F || 0x7F <= code <= 0x9F
}

/// `char::from_u32` of the standard library: the character with the
/// number `code`, and `None` exactly where `code` is the number of no
/// character.
#[verifier::external_body]
fn char_from_u32(code: u32) -> (c: Option<char>)
    ensures
        c is Some <==> is_char_code(code),
        c matches Some(ch) ==> ch as u32 == code,
{
    char::from_u32(code)
}

/// The character to show for the glyph code `code` in a message: the
/// character with that number, or the sign `\u{2327}` where that is a
/// control character, or where `code` is the number of no character.
pub fn char_code_as_printable(code: u32) -> (c: char)
    ensures
        c as u32 == if is_char_code(code) && !is_control_code(code) {
            code
        } else {
            0x2327u32
        },
{
    let c: char = match char_from_u32(code) {
        Some(c) => c,
        None => '\0',
    };
    let number: u32 = c as u32;
    if number <= 0x1F || (0x7F <= number && number <= 0x9F) {
        '\u{2327}'
    } else {
        c
    }
}

} // verus!
