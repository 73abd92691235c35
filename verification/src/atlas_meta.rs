//! What is told about a packed atlas beside its image: the rectangle of
//! every sprite, and for every font its glyphs with the sprites that show
//! them.

use vstd::prelude::*;
use crate::font::{CharacterSprite, FontIntermediate, TextCharacterAnimation};
use crate::math::IRect;
use crate::packing::{lemma_every_sprite_is_placed, PlacementEntry};
use crate::sort::{
    comes_before, is_stable_order, lemma_stable_order_exists, sorted_order, stable_order,
};
use crate::texture_atlas::{lemma_size_table_is_complete, TextureAtlas};

verus! {

/// A glyph of a font in the atlas.
#[derive(Debug, Clone, Copy, PartialEq, Eq, Structural)]
pub struct CharMeta {
    /// The position of the sprite of the first animation frame in the list
    /// of sprites of the atlas. The sprites of the other frames follow it.
    pub first_sprite_index: u32,
    pub char_code: u32,
    pub x_offset: i32,
    pub y_offset: i32,
    pub x_advance: i32,
}

/// A font in the atlas.
#[derive(Debug, Clone)]
pub struct FontMeta {
    pub name: String,
    pub animation: TextCharacterAnimation,
    pub num_animation_frames: u32,
    pub line_height: u32,
    pub base_line_y: u32,
    /// The glyphs, by ascending code.
    pub chars: Vec<CharMeta>,
}

/// The mathematical value of a [`FontMeta`].
pub struct FontMetaView {
    pub name: Seq<char>,
    pub animation: TextCharacterAnimation,
    pub num_animation_frames: u32,
    pub line_height: u32,
    pub base_line_y: u32,
    pub chars: Seq<CharMeta>,
}

impl View for FontMeta {
    type V = FontMetaView;

    open spec fn view(&self) -> FontMetaView {
        FontMetaView {
            name: self.name@,
            animation: self.animation,
            num_animation_frames: self.num_animation_frames,
            line_height: self.line_height,
            base_line_y: self.base_line_y,
            chars: self.chars@,
        }
    }
}

/// A packed atlas.
#[derive(Debug, Clone)]
pub struct AtlasMeta {
    pub atlas_name: String,
    pub texture_file: String,
    pub width: u32,
    pub height: u32,
    /// The rectangles of the sprites on the canvas.
    pub sprites: Vec<IRect>,
    pub fonts: Vec<FontMeta>,
}

/// The mathematical value of an [`AtlasMeta`].
pub struct AtlasMetaView {
    pub atlas_name: Seq<char>,
    pub texture_file: Seq<char>,
    pub width: u32,
    pub height: u32,
    pub sprites: Seq<IRect>,
    pub fonts: Seq<FontMetaView>,
}

impl View for AtlasMeta {
    type V = AtlasMetaView;

    open spec fn view(&self) -> AtlasMetaView {
        AtlasMetaView {
            atlas_name: self.atlas_name@,
            texture_file: self.texture_file@,
            width: self.width,
            height: self.height,
            sprites: self.sprites@,
            fonts: self.fonts@.map_values(|font: FontMeta| font@),
        }
    }
}

/// Why an atlas cannot be described.
#[derive(Debug, Clone, Copy, PartialEq, Eq, Structural)]
pub enum MetaError {
    /// The canvas, the line height or the base line of a font is negative.
    NegativeMeasure,
    /// The atlas has more sprites than can be counted in 32 bits.
    TooManySprites,
    /// The sprites of a glyph are not its frames, one sprite per frame.
    FrameMismatch,
    /// The sprites of a glyph do not agree on how the glyph is set.
    InconsistentGlyph,
    /// A sprite has no place on the canvas.
    MissingBounds,
}

/// The key by which the sprites of a font are sorted: first by the code of
/// the glyph, then by the number of the frame.
pub open spec fn frame_key(sprite: CharacterSprite) -> u64 {
    (sprite.char_code * 0x1_0000_0000 + sprite.frame) as u64
}

/// The sort keys of all sprites of a font, in their order.
pub open spec fn frame_keys(chars: Seq<CharacterSprite>) -> Seq<u64> {
    Seq::new(chars.len(), |i: int| frame_key(chars[i]))
}

/// The order in which the sprites of a font are listed: glyph by glyph
/// with ascending code, and the sprites of a glyph frame by frame.
pub open spec fn frame_order(chars: Seq<CharacterSprite>) -> Seq<usize> {
    sorted_order(frame_keys(chars))
}

/// The rectangle of the last placement of the given sprite.
pub open spec fn bounds_of(placements: Seq<PlacementEntry>, asset_id: usize, sprite_id: usize)
    -> Option<IRect>
    decreases placements.len(),
{
    if placements.len() == 0 {
        None
    } else if placements.last().0 == asset_id && placements.last().1 == sprite_id {
        Some(placements.last().2)
    } else {
        bounds_of(placements.drop_last(), asset_id, sprite_id)
    }
}

/// What was listed of a font so far: the rectangles of its sprites and its
/// glyphs.
pub struct FontWalk {
    pub sprites: Seq<IRect>,
    pub chars: Seq<CharMeta>,
}

/// Two sprites agree on how their glyph is set.
pub open spec fn same_setting(a: CharacterSprite, b: CharacterSprite) -> bool {
    a.x_offset == b.x_offset && a.y_offset == b.y_offset && a.x_advance == b.x_advance
}

/// Lists the sprite at position `p` of the frame order. It has to be the
/// frame `p % n` of its glyph, where `n` is the number of frames of the
/// font. A first frame has to belong to another glyph than the sprite
/// before it; any other frame has to belong to the same glyph and agree
/// with it. `base` is the number of sprites that were listed before those
/// of this font.
pub open spec fn font_step(
    font: FontIntermediate,
    asset_id: usize,
    placements: Seq<PlacementEntry>,
    base: int,
    p: int,
    at: FontWalk,
) -> Result<FontWalk, MetaError> {
    let order = frame_order(font.chars@);
    let n = font.num_frames as int;
    let sprite = font.chars@[order[p] as int];
    if n == 0 || sprite.frame != p % n {
        Err(MetaError::FrameMismatch)
    } else if p > 0 && (p % n != 0) != (sprite.char_code == font.chars@[order[p
        - 1] as int].char_code) {
        Err(MetaError::FrameMismatch)
    } else if p % n != 0 && !same_setting(sprite, font.chars@[order[p - 1] as int]) {
        Err(MetaError::InconsistentGlyph)
    } else {
        match bounds_of(placements, asset_id, order[p]) {
            None => Err(MetaError::MissingBounds),
            Some(bounds) => Ok(
                FontWalk {
                    sprites: at.sprites.push(bounds),
                    chars: if p % n == 0 {
                        at.chars.push(
                            CharMeta {
                                first_sprite_index: (base + p) as u32,
                                char_code: sprite.char_code,
                                x_offset: sprite.x_offset,
                                y_offset: sprite.y_offset,
                                x_advance: sprite.x_advance,
                            },
                        )
                    } else {
                        at.chars
                    },
                },
            ),
        }
    }
}

/// Lists the first `p` sprites of the frame order of a font.
pub open spec fn font_walk(
    font: FontIntermediate,
    asset_id: usize,
    placements: Seq<PlacementEntry>,
    base: int,
    p: nat,
) -> Result<FontWalk, MetaError>
    decreases p,
{
    if p == 0 {
        Ok(FontWalk { sprites: Seq::empty(), chars: Seq::empty() })
    } else {
        match font_walk(font, asset_id, placements, base, (p - 1) as nat) {
            Err(e) => Err(e),
            Ok(at) => font_step(font, asset_id, placements, base, p - 1, at),
        }
    }
}

/// The description of a font and the rectangles of its sprites, in the
/// order in which its glyphs refer to them, or why the font cannot be
/// described.
pub open spec fn font_meta(
    font: FontIntermediate,
    asset_id: usize,
    placements: Seq<PlacementEntry>,
    base: int,
) -> Result<(FontMetaView, Seq<IRect>), MetaError> {
    let len = font.chars@.len();
    let n = font.num_frames as int;
    if font.line_height < 0 || font.base < 0 {
        Err(MetaError::NegativeMeasure)
    } else if base + len > u32::MAX {
        Err(MetaError::TooManySprites)
    } else {
        match font_walk(font, asset_id, placements, base, len) {
            Err(e) => Err(e),
            Ok(at) => if n != 0 && len % (n as nat) != 0 {
                Err(MetaError::FrameMismatch)
            } else {
                Ok(
                    (
                        FontMetaView {
                            name: font.name@,
                            animation: font.animation,
                            num_animation_frames: font.num_frames,
                            line_height: font.line_height as u32,
                            base_line_y: font.base as u32,
                            chars: at.chars,
                        },
                        at.sprites,
                    ),
                )
            },
        }
    }
}

proof fn lemma_walk_refusal_stays(
    font: FontIntermediate,
    asset_id: usize,
    placements: Seq<PlacementEntry>,
    base: int,
    k: nat,
    n: nat,
)
    requires
        k <= n,
        font_walk(font, asset_id, placements, base, k) is Err,
    ensures
        font_walk(font, asset_id, placements, base, n) == font_walk(
            font,
            asset_id,
            placements,
            base,
            k,
        ),
    decreases n,
{
    if k < n {
        lemma_walk_refusal_stays(font, asset_id, placements, base, k, (n - 1) as nat);
    }
}

/// How quotient and remainder change from one position to the next.
proof fn lemma_next_position(p: int, n: int)
    requires
        p >= 0,
        n > 0,
    ensures
        0 <= p % n < n,
        p / n >= 0,
        p == (p / n) * n + p % n,
        p % n + 1 < n ==> (p + 1) / n == p / n && (p + 1) % n == p % n + 1,
        p % n + 1 == n ==> (p + 1) / n == p / n + 1 && (p + 1) % n == 0,
{
    vstd::arithmetic::div_mod::lemma_fundamental_div_mod(p, n);
    vstd::arithmetic::div_mod::lemma_mod_pos_bound(p, n);
    vstd::arithmetic::div_mod::lemma_div_pos_is_pos(p, n);
    let q = p / n;
    let r = p % n;
    assert(n * q == q * n) by (nonlinear_arith);
    if r + 1 < n {
        vstd::arithmetic::div_mod::lemma_fundamental_div_mod_converse(p + 1, n, q, r + 1);
    } else {
        assert((q + 1) * n + 0 == p + 1) by (nonlinear_arith)
            requires
                p == q * n + r,
                r + 1 == n,
        ;
        vstd::arithmetic::div_mod::lemma_fundamental_div_mod_converse(p + 1, n, q + 1, 0);
    }
}

/// The position of the frame `f` of the glyph `g` belongs to that glyph
/// and is that frame.
proof fn lemma_frame_position(g: int, f: int, n: int)
    requires
        0 <= g,
        0 <= f < n,
    ensures
        (g * n + f) / n == g,
        (g * n + f) % n == f,
        g * n + f >= 0,
        g * n >= 0,
{
    vstd::arithmetic::div_mod::lemma_fundamental_div_mod_converse(g * n + f, n, g, f);
    assert(g * n >= 0) by (nonlinear_arith)
        requires
            g >= 0,
            n > 0,
    ;
}

/// The position in the frame order of the frame `f` of the glyph `g`, in a
/// font with `n` frames per glyph.
pub open spec fn frame_place(g: int, f: int, n: int) -> int {
    g * n + f
}

/// The number of glyphs of which a frame lies before the position `p`.
pub open spec fn glyphs_begun(p: int, n: int) -> int {
    if n <= 0 {
        0
    } else if p % n == 0 {
        p / n
    } else {
        p / n + 1
    }
}

/// The glyph that the sprite `sprite` is a frame of.
pub open spec fn glyph_of(sprite: CharacterSprite, first_sprite_index: int) -> CharMeta {
    CharMeta {
        first_sprite_index: first_sprite_index as u32,
        char_code: sprite.char_code,
        x_offset: sprite.x_offset,
        y_offset: sprite.y_offset,
        x_advance: sprite.x_advance,
    }
}

/// What holds of the first `p` sprites of the frame order once they were
/// listed: the sprite at each position is the frame of the glyph that the
/// position stands for, its rectangle is the one listed there, and the
/// glyphs come by ascending code.
pub open spec fn frames_listed(
    font: FontIntermediate,
    asset_id: usize,
    placements: Seq<PlacementEntry>,
    base: int,
    p: int,
    at: FontWalk,
) -> bool {
    let order = frame_order(font.chars@);
    let n = font.num_frames as int;
    &&& at.sprites.len() == p
    &&& p > 0 ==> n > 0
    &&& at.chars.len() == glyphs_begun(p, n)
    &&& forall|q: int|
        0 <= q < p ==> {
            let sprite = font.chars@[order[q] as int];
            &&& bounds_of(placements, asset_id, order[q]) == Some(#[trigger] at.sprites[q])
            &&& sprite.frame == q % n
            &&& 0 <= q / n < at.chars.len()
            &&& at.chars[q / n] == glyph_of(sprite, base + (q / n) * n)
        }
    &&& forall|g: int, h: int|
        0 <= g < h < at.chars.len() ==> (#[trigger] at.chars[g]).char_code < (
        #[trigger] at.chars[h]).char_code
}

/// The keys of the frame order put a smaller code before a larger one.
proof fn lemma_codes_ascend(chars: Seq<CharacterSprite>, a: int, b: int)
    requires
        chars.len() <= usize::MAX,
        0 <= a < b < chars.len(),
    ensures
        chars[frame_order(chars)[a] as int].char_code <= chars[frame_order(
            chars,
        )[b] as int].char_code,
        is_stable_order(frame_keys(chars), frame_order(chars)),
{
    let keys = frame_keys(chars);
    let order = frame_order(chars);
    lemma_stable_order_exists(keys);
    assert(comes_before(keys, order[a] as int, order[b] as int));
}

/// A walk that lists the first `p` sprites lists them as frames of glyphs.
proof fn lemma_walk_lists_frames(
    font: FontIntermediate,
    asset_id: usize,
    placements: Seq<PlacementEntry>,
    base: int,
    p: nat,
)
    requires
        p <= font.chars@.len(),
        font.chars@.len() <= usize::MAX,
        0 <= base,
        base + font.chars@.len() <= u32::MAX,
        font_walk(font, asset_id, placements, base, p) is Ok,
    ensures
        frames_listed(
            font,
            asset_id,
            placements,
            base,
            p as int,
            font_walk(font, asset_id, placements, base, p)->Ok_0,
        ),
    decreases p,
{
    let at = font_walk(font, asset_id, placements, base, p)->Ok_0;
    let order = frame_order(font.chars@);
    let n = font.num_frames as int;
    if p == 0 {
        if n > 0 {
            vstd::arithmetic::div_mod::lemma_small_mod(0, n as nat);
            lemma_next_position(0, n);
        }
    } else {
        let m = (p - 1) as nat;
        lemma_walk_lists_frames(font, asset_id, placements, base, m);
        let before = font_walk(font, asset_id, placements, base, m)->Ok_0;
        let sprite = font.chars@[order[m as int] as int];
        assert(n > 0);
        lemma_next_position(m as int, n);
        if m > 0 {
            lemma_next_position(m - 1, n);
            lemma_codes_ascend(font.chars@, m - 1, m as int);
        }
        let g = (m as int) / n;
        assert(at.sprites == before.sprites.push(at.sprites[m as int]));
        if (m as int) % n == 0 {
            assert(at.chars == before.chars.push(glyph_of(sprite, base + m)));
            assert(before.chars.len() == g);
            assert(g * n == m);
            assert forall|a: int, b: int| 0 <= a < b < at.chars.len() implies (
            #[trigger] at.chars[a]).char_code < (#[trigger] at.chars[b]).char_code by {
                if b == g {
                    assert(m > 0);
                    let last = font.chars@[order[m - 1] as int];
                    assert(bounds_of(placements, asset_id, order[m - 1]) == Some(
                        before.sprites[m - 1],
                    ));
                    assert((m - 1) / n == g - 1);
                    assert(before.chars[g - 1].char_code == last.char_code);
                    if a < g - 1 {
                        assert(before.chars[a].char_code < before.chars[g - 1].char_code);
                    }
                } else {
                    assert(before.chars[a].char_code < before.chars[b].char_code);
                }
            }
        } else {
            assert(at.chars == before.chars);
            assert(m > 0);
            assert(bounds_of(placements, asset_id, order[m - 1]) == Some(before.sprites[m - 1]));
            assert((m - 1) / n == g);
        }
        assert forall|q: int| 0 <= q < p implies {
            let s = font.chars@[order[q] as int];
            &&& bounds_of(placements, asset_id, order[q]) == Some(#[trigger] at.sprites[q])
            &&& s.frame == q % n
            &&& 0 <= q / n < at.chars.len()
            &&& at.chars[q / n] == glyph_of(s, base + (q / n) * n)
        } by {
            if q < m {
                assert(bounds_of(placements, asset_id, order[q]) == Some(before.sprites[q]));
                assert(at.sprites[q] == before.sprites[q]);
                assert(at.chars[q / n] == before.chars[q / n]);
            }
        }
    }
}

/// Of every font that can be described: its glyphs are listed by ascending
/// code, each once; the sprites of the glyph at position `g` are listed
/// from `first_sprite_index` on, frame by frame, and the sprite at the
/// place of the frame `f` is a sprite of the font that has the code and
/// the setting of the glyph and `f` as the number of its frame; the
/// rectangle listed for it is the one of its last placement.
pub proof fn lemma_font_meta_lists_frames(
    font: FontIntermediate,
    asset_id: usize,
    placements: Seq<PlacementEntry>,
    base: int,
)
    requires
        font.chars@.len() <= usize::MAX,
        0 <= base,
        font_meta(font, asset_id, placements, base) is Ok,
    ensures
        ({
            let (meta, sprites) = font_meta(font, asset_id, placements, base)->Ok_0;
            let order = frame_order(font.chars@);
            let n = font.num_frames as int;
            &&& is_stable_order(frame_keys(font.chars@), order)
            &&& sprites.len() == font.chars@.len()
            &&& meta.chars.len() * n == font.chars@.len()
            &&& forall|g: int, h: int|
                0 <= g < h < meta.chars.len() ==> (#[trigger] meta.chars[g]).char_code < (
                #[trigger] meta.chars[h]).char_code
            &&& forall|g: int, f: int|
                #![trigger frame_place(g, f, n)]
                0 <= g < meta.chars.len() && 0 <= f < n ==> {
                    let at = frame_place(g, f, n);
                    let sprite = font.chars@[order[at] as int];
                    &&& 0 <= at < sprites.len()
                    &&& meta.chars[g].first_sprite_index == base + frame_place(g, 0, n)
                    &&& sprite.char_code == meta.chars[g].char_code
                    &&& sprite.frame == f
                    &&& sprite.x_offset == meta.chars[g].x_offset
                    &&& sprite.y_offset == meta.chars[g].y_offset
                    &&& sprite.x_advance == meta.chars[g].x_advance
                    &&& bounds_of(placements, asset_id, order[at]) == Some(sprites[at])
                }
        }),
{
    let (meta, sprites) = font_meta(font, asset_id, placements, base)->Ok_0;
    let order = frame_order(font.chars@);
    let n = font.num_frames as int;
    let len = font.chars@.len();
    lemma_stable_order_exists(frame_keys(font.chars@));
    lemma_walk_lists_frames(font, asset_id, placements, base, len);
    if n > 0 {
        lemma_next_position(len as int, n);
    }
    assert forall|g: int, f: int|
        #![trigger frame_place(g, f, n)]
        0 <= g < meta.chars.len() && 0 <= f < n implies {
        let at = frame_place(g, f, n);
        let sprite = font.chars@[order[at] as int];
        &&& 0 <= at < sprites.len()
        &&& meta.chars[g].first_sprite_index == base + frame_place(g, 0, n)
        &&& sprite.char_code == meta.chars[g].char_code
        &&& sprite.frame == f
        &&& sprite.x_offset == meta.chars[g].x_offset
        &&& sprite.y_offset == meta.chars[g].y_offset
        &&& sprite.x_advance == meta.chars[g].x_advance
        &&& bounds_of(placements, asset_id, order[at]) == Some(sprites[at])
    } by {
        let at = g * n + f;
        lemma_frame_position(g, f, n);
        assert(at < len) by (nonlinear_arith)
            requires
                at == g * n + f,
                0 <= f < n,
                g + 1 <= meta.chars.len(),
                meta.chars.len() * n == len,
        ;
        assert(bounds_of(placements, asset_id, order[at]) == Some(sprites[at]));
        assert(g * n <= at);
    }
}

/// The rectangle of the last placement of the given sprite.
pub fn find_bounds(placements: &Vec<PlacementEntry>, asset_id: usize, sprite_id: usize) -> (bounds:
    Option<IRect>)
    ensures
        bounds == bounds_of(placements@, asset_id, sprite_id),
{
    let mut i: usize = placements.len();
    assert(placements@.take(i as int) =~= placements@);
    while i > 0
        invariant
            i <= placements@.len(),
            bounds_of(placements@, asset_id, sprite_id) == bounds_of(
                placements@.take(i as int),
                asset_id,
                sprite_id,
            ),
        decreases i,
    {
        let ghost shorter = placements@.take(i as int);
        assert(shorter.drop_last() =~= placements@.take(i - 1));
        i -= 1;
        let (asset, sprite, bounds) = placements[i];
        if asset == asset_id && sprite == sprite_id {
            return Some(bounds);
        }
    }
    None
}

/// The order in which the sprites of a font are listed.
pub fn sort_frames(chars: &Vec<CharacterSprite>) -> (order: Vec<usize>)
    ensures
        order@ == frame_order(chars@),
        is_stable_order(frame_keys(chars@), order@),
{
    let mut keys: Vec<u64> = Vec::new();
    let mut i: usize = 0;
    while i < chars.len()
        invariant
            i <= chars@.len(),
            keys@ == frame_keys(chars@).take(i as int),
        decreases chars.len() - i,
    {
        let sprite = chars[i];
        keys.push(sprite.char_code as u64 * 0x1_0000_0000 + sprite.frame as u64);
        assert(keys@ =~= frame_keys(chars@).take(i + 1));
        i += 1;
    }
    assert(keys@ =~= frame_keys(chars@));
    stable_order(&keys)
}

/// The rectangles of the sprites and the descriptions of the first `k`
/// fonts of an atlas, or why the first font that cannot be described cannot.
pub open spec fn atlas_fonts(atlas: TextureAtlas, k: nat) -> Result<
    (Seq<IRect>, Seq<FontMetaView>),
    MetaError,
>
    decreases k,
{
    if k == 0 {
        Ok((Seq::empty(), Seq::empty()))
    } else {
        match atlas_fonts(atlas, (k - 1) as nat) {
            Err(e) => Err(e),
            Ok((sprites, fonts)) => match font_meta(
                atlas.fonts@[k - 1],
                (k - 1) as usize,
                atlas.sprite_bounds@,
                sprites.len() as int,
            ) {
                Err(e) => Err(e),
                Ok((font, more)) => Ok((sprites + more, fonts.push(font))),
            },
        }
    }
}

/// The description of a packed atlas, or why it cannot be described.
pub open spec fn atlas_meta(name: Seq<char>, texture_file: Seq<char>, atlas: TextureAtlas)
    -> Result<AtlasMetaView, MetaError> {
    if atlas.final_image_bounds.width < 0 || atlas.final_image_bounds.height < 0 {
        Err(MetaError::NegativeMeasure)
    } else {
        match atlas_fonts(atlas, atlas.fonts@.len()) {
            Err(e) => Err(e),
            Ok((sprites, fonts)) => Ok(
                AtlasMetaView {
                    atlas_name: name,
                    texture_file,
                    width: atlas.final_image_bounds.width as u32,
                    height: atlas.final_image_bounds.height as u32,
                    sprites,
                    fonts,
                },
            ),
        }
    }
}

proof fn lemma_fonts_refusal_stays(atlas: TextureAtlas, k: nat, n: nat)
    requires
        k <= n,
        atlas_fonts(atlas, k) is Err,
    ensures
        atlas_fonts(atlas, n) == atlas_fonts(atlas, k),
    decreases n,
{
    if k < n {
        lemma_fonts_refusal_stays(atlas, k, (n - 1) as nat);
    }
}

/// A sprite that has a placement has a rectangle: the one of a placement
/// of that sprite.
pub proof fn lemma_bounds_are_found(
    placements: Seq<PlacementEntry>,
    asset_id: usize,
    sprite_id: usize,
    k: int,
) -> (found: int)
    requires
        0 <= k < placements.len(),
        placements[k].0 == asset_id,
        placements[k].1 == sprite_id,
    ensures
        0 <= found < placements.len(),
        placements[found].0 == asset_id,
        placements[found].1 == sprite_id,
        bounds_of(placements, asset_id, sprite_id) == Some(placements[found].2),
    decreases placements.len(),
{
    if placements.last().0 == asset_id && placements.last().1 == sprite_id {
        placements.len() - 1
    } else {
        lemma_bounds_are_found(placements.drop_last(), asset_id, sprite_id, k)
    }
}

/// In a packed atlas every sprite of every font has a rectangle, and the
/// rectangle has the size of the sprite.
pub proof fn lemma_packed_atlas_has_bounds(atlas: TextureAtlas, asset_id: usize, sprite_id: usize)
    requires
        atlas.is_packed(),
        asset_id < atlas.fonts@.len(),
        sprite_id < atlas.fonts@[asset_id as int].chars@.len(),
    ensures
        bounds_of(atlas.sprite_bounds@, asset_id, sprite_id) matches Some(bounds)
            && bounds.spec_width() == atlas.fonts@[asset_id as int].chars@[sprite_id as int].sprite.width
            && bounds.spec_height()
            == atlas.fonts@[asset_id as int].chars@[sprite_id as int].sprite.height,
{
    let sizes = atlas.sprite_sizes@;
    assert(atlas.sprite_sizes.len() == sizes.len());
    assert(atlas.fonts.len() == atlas.fonts@.len());
    let i = lemma_size_table_is_complete(atlas.fonts@, asset_id, sprite_id);
    let at = lemma_every_sprite_is_placed(
        sizes,
        atlas.padding,
        atlas.image_side_len_guess as int,
        atlas.max_side_len as int,
        i,
    );
    let found = lemma_bounds_are_found(atlas.sprite_bounds@, asset_id, sprite_id, at);
    atlas.lemma_packed_atlas_is_sound(found);
}

proof fn lemma_packed_font_has_bounds(atlas: TextureAtlas, k: int, base: int, p: nat)
    requires
        atlas.is_packed(),
        0 <= k < atlas.fonts@.len(),
        p <= atlas.fonts@[k].chars@.len(),
    ensures
        font_walk(atlas.fonts@[k], k as usize, atlas.sprite_bounds@, base, p) matches Err(e) ==> e
            != MetaError::MissingBounds,
    decreases p,
{
    if p > 0 {
        let font = atlas.fonts@[k];
        assert(font.chars.len() == font.chars@.len());
        assert(atlas.fonts.len() == atlas.fonts@.len());
        lemma_packed_font_has_bounds(atlas, k, base, (p - 1) as nat);
        lemma_stable_order_exists(frame_keys(font.chars@));
        lemma_packed_atlas_has_bounds(atlas, k as usize, frame_order(font.chars@)[p - 1]);
    }
}

proof fn lemma_packed_fonts_have_bounds(atlas: TextureAtlas, k: nat)
    requires
        atlas.is_packed(),
        k <= atlas.fonts@.len(),
    ensures
        atlas_fonts(atlas, k) matches Err(e) ==> e != MetaError::MissingBounds,
    decreases k,
{
    if k > 0 {
        lemma_packed_fonts_have_bounds(atlas, (k - 1) as nat);
        if let Ok((sprites, fonts)) = atlas_fonts(atlas, (k - 1) as nat) {
            lemma_packed_font_has_bounds(
                atlas,
                k - 1,
                sprites.len() as int,
                atlas.fonts@[k - 1].chars@.len(),
            );
        }
    }
}

/// The description of a packed atlas is never refused for a sprite
/// without a place.
pub proof fn lemma_packed_atlas_is_described(
    name: Seq<char>,
    texture_file: Seq<char>,
    atlas: TextureAtlas,
)
    requires
        atlas.is_packed(),
    ensures
        atlas_meta(name, texture_file, atlas) matches Err(e) ==> e != MetaError::MissingBounds,
{
    lemma_packed_fonts_have_bounds(atlas, atlas.fonts@.len());
}

impl AtlasMeta {
    /// Describes a packed atlas: the size of its canvas, then font by font
    /// the glyphs and the rectangles of their sprites.
    pub fn from_texture_atlas(name: String, texture_file: String, atlas: &TextureAtlas) -> (meta:
        Result<Self, MetaError>)
        ensures
            meta matches Ok(m) ==> atlas_meta(name@, texture_file@, *atlas) == Ok::<
                AtlasMetaView,
                MetaError,
            >(m@),
            meta matches Err(e) ==> atlas_meta(name@, texture_file@, *atlas) == Err::<
                AtlasMetaView,
                MetaError,
            >(e),
    {
        if atlas.final_image_bounds.width < 0 || atlas.final_image_bounds.height < 0 {
            return Err(MetaError::NegativeMeasure);
        }
        let mut builder = Self {
            atlas_name: name,
            texture_file,
            width: atlas.final_image_bounds.width as u32,
            height: atlas.final_image_bounds.height as u32,
            sprites: Vec::new(),
            fonts: Vec::new(),
        };
        assert(builder@.fonts =~= Seq::<FontMetaView>::empty());
        let mut index: usize = 0;
        while index < atlas.fonts.len()
            invariant
                index <= atlas.fonts@.len(),
                atlas.final_image_bounds.width >= 0,
                atlas.final_image_bounds.height >= 0,
                builder@.atlas_name == name@,
                builder@.texture_file == texture_file@,
                builder.width == atlas.final_image_bounds.width,
                builder.height == atlas.final_image_bounds.height,
                atlas_fonts(*atlas, index as nat) == Ok::<
                    (Seq<IRect>, Seq<FontMetaView>),
                    MetaError,
                >((builder@.sprites, builder@.fonts)),
            decreases atlas.fonts.len() - index,
        {
            let asset_id = atlas.get_font_asset_id(index);
            match builder.insert_font(&atlas.fonts[index], asset_id, &atlas.sprite_bounds) {
                Ok(_) => {},
                Err(e) => {
                    proof {
                        lemma_fonts_refusal_stays(*atlas, (index + 1) as nat, atlas.fonts@.len());
                    }
                    return Err(e);
                },
            }
            index += 1;
        }
        Ok(builder)
    }

    /// Adds a font, which has the asset number `asset_id` in the atlas
    /// whose sprites were placed as `placements` says. The rectangles of
    /// the sprites of the font are added to the list of sprites, glyph by
    /// glyph with ascending code, and for a glyph frame by frame. On
    /// failure nothing is added.
    pub fn insert_font(
        &mut self,
        font: &FontIntermediate,
        asset_id: usize,
        placements: &Vec<PlacementEntry>,
    ) -> (done: Result<(), MetaError>)
        ensures
            match font_meta(*font, asset_id, placements@, old(self).sprites@.len() as int) {
                Ok((font_meta, sprites)) => {
                    &&& done is Ok
                    &&& final(self)@ == (AtlasMetaView {
                        sprites: old(self)@.sprites + sprites,
                        fonts: old(self)@.fonts.push(font_meta),
                        ..old(self)@
                    })
                },
                Err(e) => done == Err::<(), MetaError>(e) && final(self)@ == old(self)@,
            },
    {
        let base: usize = self.sprites.len();
        let len: usize = font.chars.len();
        if font.line_height < 0 || font.base < 0 {
            return Err(MetaError::NegativeMeasure);
        }
        if base > 0xFFFF_FFFF || len > 0xFFFF_FFFF - base {
            return Err(MetaError::TooManySprites);
        }
        let order = sort_frames(&font.chars);
        let frames: usize = font.num_frames as usize;
        let mut sprites: Vec<IRect> = Vec::new();
        let mut chars: Vec<CharMeta> = Vec::new();
        let mut p: usize = 0;
        while p < len
            invariant
                p <= len,
                len == font.chars@.len(),
                base == old(self).sprites@.len(),
                *self == *old(self),
                font.line_height >= 0,
                font.base >= 0,
                base + len <= u32::MAX,
                frames == font.num_frames,
                order@ == frame_order(font.chars@),
                is_stable_order(frame_keys(font.chars@), order@),
                font_walk(*font, asset_id, placements@, base as int, p as nat) == Ok::<
                    FontWalk,
                    MetaError,
                >(FontWalk { sprites: sprites@, chars: chars@ }),
            decreases len - p,
        {
            let sprite = font.chars[order[p]];
            let mut refusal: Option<MetaError> = None;
            if frames == 0 || sprite.frame as usize != p % frames {
                refusal = Some(MetaError::FrameMismatch);
            } else if p > 0 {
                let before = font.chars[order[p - 1]];
                if (p % frames != 0) != (sprite.char_code == before.char_code) {
                    refusal = Some(MetaError::FrameMismatch);
                } else if p % frames != 0 && (sprite.x_offset != before.x_offset || sprite.y_offset
                    != before.y_offset || sprite.x_advance != before.x_advance) {
                    refusal = Some(MetaError::InconsistentGlyph);
                }
            } else {
                proof {
                    vstd::arithmetic::div_mod::lemma_small_mod(0, frames as nat);
                }
            }
            let found = find_bounds(placements, asset_id, order[p]);
            if refusal.is_none() && found.is_none() {
                refusal = Some(MetaError::MissingBounds);
            }
            match refusal {
                Some(e) => {
                    proof {
                        lemma_walk_refusal_stays(
                            *font,
                            asset_id,
                            placements@,
                            base as int,
                            (p + 1) as nat,
                            len as nat,
                        );
                    }
                    return Err(e);
                },
                None => {},
            }
            if p % frames == 0 {
                chars.push(
                    CharMeta {
                        first_sprite_index: (base + p) as u32,
                        char_code: sprite.char_code,
                        x_offset: sprite.x_offset,
                        y_offset: sprite.y_offset,
                        x_advance: sprite.x_advance,
                    },
                );
            }
            sprites.push(found.unwrap());
            p += 1;
        }
        if frames != 0 && len % frames != 0 {
            return Err(MetaError::FrameMismatch);
        }
        let ghost before_sprites = self.sprites@;
        let ghost before_fonts = self@.fonts;
        let font_meta = FontMeta {
            name: font.name.clone(),
            animation: font.animation,
            num_animation_frames: font.num_frames,
            line_height: font.line_height as u32,
            base_line_y: font.base as u32,
            chars,
        };
        self.sprites.append(&mut sprites);
        self.fonts.push(font_meta);
        proof {
            assert(self@.fonts =~= before_fonts.push(font_meta@));
        }
        Ok(())
    }
}

} // verus!
