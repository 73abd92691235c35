//! The atlas: the fonts whose sprites it holds, the table of their sizes,
//! and, once it is packed, the place of every sprite on the canvas.

use vstd::prelude::*;
use crate::bitmap::{Bitmap, Picture};
use crate::font::{Atlasable, FontError, FontIntermediate};
use crate::guess::{guess_side_len, side_len_guess};
use crate::math::{IMargins, IRect, ISize};
use crate::packing::{
    lemma_packing_is_sound, lemma_tallest_first, no_overlap, pack_spec, pack_sprites,
    packing_sound, placing_order, shelf_pack, sizes_valid, sort_tallest_first, tallest_first,
    try_shelf_pack, PackError, PlacementEntry, SizeEntry,
};
use crate::sources::Sources;

verus! {

/// The largest side of a canvas, unless another is set.
pub const DEFAULT_MAX_SIDE_LEN: i32 = 1024;

/// The number of pixels of a sprite. A size that is not valid has none.
pub open spec fn pixel_count(size: ISize) -> int {
    if size.is_valid() {
        size.spec_area()
    } else {
        0
    }
}

/// The number of pixels of all sprites together.
pub open spec fn total_area(entries: Seq<SizeEntry>) -> int
    decreases entries.len(),
{
    if entries.len() == 0 {
        0
    } else {
        total_area(entries.drop_last()) + pixel_count(entries.last().2)
    }
}

/// The entries of the sprites of one asset, in the order of the sprites.
pub open spec fn asset_entries(asset_id: usize, sizes: Seq<ISize>) -> Seq<SizeEntry> {
    Seq::new(sizes.len(), |i: int| (asset_id, i as usize, sizes[i]))
}

/// The entries of the sprites of all fonts: font by font, and within a font
/// sprite by sprite.
pub open spec fn size_table(fonts: Seq<FontIntermediate>) -> Seq<SizeEntry>
    decreases fonts.len(),
{
    if fonts.len() == 0 {
        Seq::empty()
    } else {
        size_table(fonts.drop_last()) + asset_entries(
            (fonts.len() - 1) as usize,
            fonts.last().sprite_sizes(),
        )
    }
}

/// Why the image of an atlas could not be drawn.
#[derive(Debug, Clone, Copy, PartialEq, Eq, Structural)]
pub enum AtlasError {
    /// The atlas has no asset with this number.
    UnknownAsset,
    /// The font could not give the pixels of a sprite.
    Font(FontError),
    /// The canvas has a negative size, or more pixels than memory can hold.
    InvalidCanvas,
    /// The rectangle of a placement starts left of or above the canvas, or
    /// has not the size of its sprite.
    SizeMismatch,
    /// The rectangle of a placement does not lie on the canvas.
    OutOfCanvas,
}

/// The sprites of a number of fonts, and their places on one canvas.
pub struct TextureAtlas {
    /// The fonts. The asset number of a font is its position here.
    pub fonts: Vec<FontIntermediate>,
    /// The size of every sprite, as `load_sizes` found it.
    pub sprite_sizes: Vec<(usize, usize, ISize)>,
    /// The place of every sprite, as `pack` chose it.
    pub sprite_bounds: Vec<(usize, usize, IRect)>,
    /// The space to leave around every sprite.
    pub padding: IMargins,
    /// The size of the canvas, as `pack` chose it.
    pub final_image_bounds: ISize,
    /// The side of the canvas to try first.
    pub image_side_len_guess: u32,
    /// The largest side of a canvas.
    pub max_side_len: i32,
}

impl TextureAtlas {
    /// The pixels of the sprite with the given number in the asset with
    /// the given number, or why they cannot be had.
    pub open spec fn asset_sprite_texture(
        &self,
        asset_id: usize,
        sprite_id: usize,
        srcs: Sources,
    ) -> Result<Picture, AtlasError> {
        if asset_id >= self.fonts@.len() {
            Err(AtlasError::UnknownAsset)
        } else {
            match self.fonts@[asset_id as int].sprite_texture(sprite_id, srcs) {
                Ok(picture) => Ok(picture),
                Err(e) => Err(AtlasError::Font(e)),
            }
        }
    }

    /// The canvas after the sprite of a placement was copied to its place,
    /// or why it cannot be.
    pub open spec fn with_sprite(
        &self,
        canvas: Picture,
        placement: PlacementEntry,
        srcs: Sources,
    ) -> Result<Picture, AtlasError> {
        let bounds = placement.2;
        match self.asset_sprite_texture(placement.0, placement.1, srcs) {
            Err(e) => Err(e),
            Ok(texture) => if bounds.min.x < 0 || bounds.min.y < 0 || texture.size != (
                bounds.spec_width(),
                bounds.spec_height(),
            ) {
                Err(AtlasError::SizeMismatch)
            } else if bounds.max.x > canvas.size.0 || bounds.max.y > canvas.size.1 {
                Err(AtlasError::OutOfCanvas)
            } else {
                Ok(canvas.pasted(texture, bounds.min.x as int, bounds.min.y as int))
            },
        }
    }

    /// The canvas is one that can be drawn: its size is not negative, and
    /// its pixels are no more than memory can hold.
    pub open spec fn canvas_is_valid(&self) -> bool {
        &&& self.final_image_bounds.width >= 0
        &&& self.final_image_bounds.height >= 0
        &&& 4 * (self.final_image_bounds.width * self.final_image_bounds.height) <= isize::MAX
    }

    /// The canvas after the sprites of the first `n` placements were
    /// copied to their places, one after the other, or why the first
    /// sprite that cannot be copied cannot.
    pub open spec fn drawn(&self, srcs: Sources, n: nat) -> Result<Picture, AtlasError>
        decreases n,
    {
        if n == 0 {
            if self.canvas_is_valid() {
                Ok(
                    Picture::blank(
                        (
                            self.final_image_bounds.width as int,
                            self.final_image_bounds.height as int,
                        ),
                    ),
                )
            } else {
                Err(AtlasError::InvalidCanvas)
            }
        } else {
            match self.drawn(srcs, (n - 1) as nat) {
                Err(e) => Err(e),
                Ok(canvas) => self.with_sprite(canvas, self.sprite_bounds@[n - 1], srcs),
            }
        }
    }

    proof fn lemma_drawing_refusal_stays(&self, srcs: Sources, k: nat, n: nat)
        requires
            k <= n,
            self.drawn(srcs, k) is Err,
        ensures
            self.drawn(srcs, n) == self.drawn(srcs, k),
        decreases n,
    {
        if k < n {
            self.lemma_drawing_refusal_stays(srcs, k, (n - 1) as nat);
        }
    }

    /// Drawing does not change the size of the canvas.
    pub proof fn lemma_drawn_size(&self, srcs: Sources, n: nat)
        requires
            self.drawn(srcs, n) is Ok,
        ensures
            self.drawn(srcs, n)->Ok_0.size == (
                self.final_image_bounds.width as int,
                self.final_image_bounds.height as int,
            ),
            self.canvas_is_valid(),
        decreases n,
    {
        if n > 0 {
            self.lemma_drawn_size(srcs, (n - 1) as nat);
        }
    }

    /// On the image of an atlas whose placements do not overlap, every
    /// sprite is found at its place: the pixels in the rectangle of each
    /// placement are the pixels of its sprite.
    pub proof fn lemma_every_sprite_is_drawn(
        &self,
        srcs: Sources,
        n: nat,
        k: int,
        column: int,
        row: int,
    )
        requires
            n <= self.sprite_bounds@.len(),
            no_overlap(self.sprite_bounds@),
            self.drawn(srcs, n) is Ok,
            0 <= k < n,
            self.sprite_bounds@[k].2.contains(column, row),
        ensures
            self.asset_sprite_texture(self.sprite_bounds@[k].0, self.sprite_bounds@[k].1, srcs)
                is Ok,
            self.drawn(srcs, n)->Ok_0.pixels[(column, row)] == self.asset_sprite_texture(
                self.sprite_bounds@[k].0,
                self.sprite_bounds@[k].1,
                srcs,
            )->Ok_0.pixels[(
                column - self.sprite_bounds@[k].2.min.x,
                row - self.sprite_bounds@[k].2.min.y,
            )],
            self.drawn(srcs, n)->Ok_0.pixels.contains_key((column, row)),
        decreases n,
    {
        let before = self.drawn(srcs, (n - 1) as nat)->Ok_0;
        let last = self.sprite_bounds@[n - 1];
        self.lemma_drawn_size(srcs, (n - 1) as nat);
        if k < n - 1 {
            self.lemma_every_sprite_is_drawn(srcs, (n - 1) as nat, k, column, row);
            assert(!self.sprite_bounds@[k].2.overlaps(last.2));
        } else {
            self.lemma_blank_has_every_pixel(srcs, (n - 1) as nat, column, row);
        }
    }

    /// The canvas has a pixel at every column and row of its size.
    proof fn lemma_blank_has_every_pixel(
        &self,
        srcs: Sources,
        n: nat,
        column: int,
        row: int,
    )
        requires
            self.drawn(srcs, n) is Ok,
            0 <= column < self.final_image_bounds.width,
            0 <= row < self.final_image_bounds.height,
        ensures
            self.drawn(srcs, n)->Ok_0.pixels.contains_key((column, row)),
        decreases n,
    {
        if n > 0 {
            self.lemma_blank_has_every_pixel(srcs, (n - 1) as nat, column, row);
        }
    }

    /// An atlas without fonts.
    pub fn new(padding: IMargins) -> (atlas: Self)
        ensures
            atlas.fonts@.len() == 0,
            atlas.sprite_sizes@.len() == 0,
            atlas.sprite_bounds@.len() == 0,
            atlas.padding == padding,
            atlas.final_image_bounds == (ISize { width: 0, height: 0 }),
            atlas.image_side_len_guess == 1,
            atlas.max_side_len == DEFAULT_MAX_SIDE_LEN,
    {
        Self {
            fonts: Vec::new(),
            sprite_sizes: Vec::new(),
            sprite_bounds: Vec::new(),
            padding,
            final_image_bounds: ISize::default(),
            image_side_len_guess: 1,
            max_side_len: DEFAULT_MAX_SIDE_LEN,
        }
    }

    /// Adds a font. Its asset number is the number of fonts before it.
    pub fn with_font(&mut self, font: FontIntermediate)
        ensures
            final(self).fonts@ == old(self).fonts@.push(font),
            final(self).sprite_sizes == old(self).sprite_sizes,
            final(self).sprite_bounds == old(self).sprite_bounds,
            final(self).padding == old(self).padding,
            final(self).final_image_bounds == old(self).final_image_bounds,
            final(self).image_side_len_guess == old(self).image_side_len_guess,
            final(self).max_side_len == old(self).max_side_len,
    {
        self.fonts.push(font);
    }

    /// The asset number of the font with the given position.
    pub fn get_font_asset_id(&self, font_index: usize) -> (asset_id: usize)
        ensures
            asset_id == font_index,
    {
        font_index
    }

    /// Builds the table of sprite sizes anew, font by font and sprite by
    /// sprite, and guesses the side of the canvas from their area.
    pub fn load_sizes(&mut self)
        ensures
            final(self).sprite_sizes@ == size_table(old(self).fonts@),
            final(self).image_side_len_guess == side_len_guess(
                total_area(size_table(old(self).fonts@)),
            ),
            final(self).fonts == old(self).fonts,
            final(self).sprite_bounds == old(self).sprite_bounds,
            final(self).padding == old(self).padding,
            final(self).final_image_bounds == old(self).final_image_bounds,
            final(self).max_side_len == old(self).max_side_len,
    {
        let mut table: Vec<(usize, usize, ISize)> = Vec::new();
        let mut area: u64 = 0;
        let mut asset_index: usize = 0;
        assert(self.fonts@.take(0) =~= Seq::<FontIntermediate>::empty());
        while asset_index < self.fonts.len()
            invariant
                asset_index <= self.fonts@.len(),
                table@ == size_table(self.fonts@.take(asset_index as int)),
                area == if total_area(table@) > u64::MAX {
                    u64::MAX as int
                } else {
                    total_area(table@)
                },
                total_area(table@) >= 0,
            decreases self.fonts.len() - asset_index,
        {
            let sizes = self.fonts[asset_index].get_sprite_sizes();
            let ghost before = table@;
            let ghost entries = asset_entries(asset_index, sizes@);
            let mut sprite_index: usize = 0;
            while sprite_index < sizes.len()
                invariant
                    sprite_index <= sizes@.len(),
                    entries == asset_entries(asset_index, sizes@),
                    table@ == before + entries.take(sprite_index as int),
                    area == if total_area(table@) > u64::MAX {
                        u64::MAX as int
                    } else {
                        total_area(table@)
                    },
                    total_area(table@) >= 0,
                decreases sizes.len() - sprite_index,
            {
                let size = sizes[sprite_index];
                let ghost shorter = table@;
                let pixels: u64 = if size.width >= 0 && size.height >= 0 {
                    assert(size.width * size.height <= 0x7FFF_FFFF * 0x7FFF_FFFF)
                        by (nonlinear_arith)
                        requires
                            0 <= size.width <= 0x7FFF_FFFF,
                            0 <= size.height <= 0x7FFF_FFFF,
                    ;
                    assert(size.width * size.height >= 0) by (nonlinear_arith)
                        requires
                            0 <= size.width,
                            0 <= size.height,
                    ;
                    (size.width as u64) * (size.height as u64)
                } else {
                    0
                };
                area = area.saturating_add(pixels);
                table.push((asset_index, sprite_index, size));
                proof {
                    assert(table@.drop_last() =~= shorter);
                    assert(table@ =~= before + entries.take(sprite_index + 1));
                }
                sprite_index += 1;
            }
            proof {
                assert(entries.take(sprite_index as int) =~= entries);
                let longer = self.fonts@.take(asset_index + 1);
                assert(longer.drop_last() =~= self.fonts@.take(asset_index as int));
                assert(longer.last() == self.fonts@[asset_index as int]);
            }
            asset_index += 1;
        }
        proof {
            assert(self.fonts@.take(asset_index as int) =~= self.fonts@);
        }
        self.sprite_sizes = table;
        self.image_side_len_guess = guess_side_len(area);
    }

    /// What `pack` asks of an atlas: no sprite has a negative size, no
    /// margin is negative, and the largest side is at least one pixel.
    pub open spec fn packable(&self) -> bool {
        &&& sizes_valid(self.sprite_sizes@)
        &&& self.padding.is_valid()
        &&& self.max_side_len >= 1
    }

    /// Whether the atlas is one that `pack` can be asked to pack.
    pub fn is_packable(&self) -> (ok: bool)
        ensures
            ok == self.packable(),
    {
        if self.max_side_len < 1 || self.padding.top < 0 || self.padding.bottom < 0
            || self.padding.left < 0 || self.padding.right < 0 {
            return false;
        }
        let mut i: usize = 0;
        while i < self.sprite_sizes.len()
            invariant
                i <= self.sprite_sizes@.len(),
                forall|k: int| 0 <= k < i ==> (#[trigger] self.sprite_sizes@[k]).2.is_valid(),
            decreases self.sprite_sizes.len() - i,
        {
            let size = self.sprite_sizes[i].2;
            if size.width < 0 || size.height < 0 {
                return false;
            }
            i += 1;
        }
        true
    }

    /// Lays the sprites of the size table out on a canvas of the given
    /// size, tallest first. Says whether the canvas holds them all; if it
    /// does, their places are kept, else none is.
    pub fn try_pack(&mut self, width: i32, height: i32) -> (fits: bool)
        requires
            sizes_valid(old(self).sprite_sizes@),
            old(self).padding.is_valid(),
            0 <= width,
            0 <= height,
        ensures
            fits == shelf_pack(
                tallest_first(old(self).sprite_sizes@),
                old(self).padding,
                width as int,
                height as int,
            ) is Some,
            fits ==> Some(final(self).sprite_bounds@) == shelf_pack(
                tallest_first(old(self).sprite_sizes@),
                old(self).padding,
                width as int,
                height as int,
            ),
            !fits ==> final(self).sprite_bounds@.len() == 0,
            final(self).fonts == old(self).fonts,
            final(self).sprite_sizes == old(self).sprite_sizes,
            final(self).padding == old(self).padding,
            final(self).final_image_bounds == old(self).final_image_bounds,
            final(self).image_side_len_guess == old(self).image_side_len_guess,
            final(self).max_side_len == old(self).max_side_len,
    {
        let sorted = sort_tallest_first(&self.sprite_sizes);
        match try_shelf_pack(&sorted, self.padding, width, height) {
            Some(placements) => {
                self.sprite_bounds = placements;
                true
            },
            None => {
                self.sprite_bounds = Vec::new();
                false
            },
        }
    }

    /// Finds a canvas for the sprites of the size table and a place for
    /// each of them. The first canvas is a square with the guessed side;
    /// while a canvas is too small its smaller dimension is doubled. On
    /// failure no place is kept.
    pub fn pack(&mut self) -> (done: Result<(), PackError>)
        requires
            old(self).packable(),
        ensures
            match pack_spec(
                old(self).sprite_sizes@,
                old(self).padding,
                old(self).image_side_len_guess as int,
                old(self).max_side_len as int,
            ) {
                Ok(packing) => {
                    &&& done is Ok
                    &&& final(self).sprite_bounds@ == packing.placements
                    &&& final(self).final_image_bounds == packing.canvas
                    &&& packing_sound(
                        old(self).sprite_sizes@,
                        old(self).padding,
                        old(self).image_side_len_guess as int,
                        old(self).max_side_len as int,
                        packing,
                    )
                },
                Err(e) => {
                    &&& done == Err::<(), PackError>(e)
                    &&& final(self).sprite_bounds@.len() == 0
                    &&& final(self).final_image_bounds == old(self).final_image_bounds
                },
            },
            done is Ok && old(self).sprite_sizes@ == size_table(old(self).fonts@)
                ==> final(self).is_packed(),
            final(self).fonts == old(self).fonts,
            final(self).sprite_sizes == old(self).sprite_sizes,
            final(self).padding == old(self).padding,
            final(self).image_side_len_guess == old(self).image_side_len_guess,
            final(self).max_side_len == old(self).max_side_len,
    {
        match pack_sprites(
            &self.sprite_sizes,
            self.padding,
            self.image_side_len_guess,
            self.max_side_len,
        ) {
            Ok(packing) => {
                self.sprite_bounds = packing.placements;
                self.final_image_bounds = packing.canvas;
                Ok(())
            },
            Err(e) => {
                self.sprite_bounds = Vec::new();
                Err(e)
            },
        }
    }

    /// The pixels of the sprite with the given number in the asset with
    /// the given number, as an image of their own.
    pub fn get_asset_sprite_texture(
        &self,
        asset_id: usize,
        sprite_id: usize,
        srcs: &Sources,
    ) -> (texture: Result<Bitmap, AtlasError>)
        ensures
            texture matches Ok(t) ==> self.asset_sprite_texture(asset_id, sprite_id, *srcs) == Ok::<
                Picture,
                AtlasError,
            >(t@),
            texture matches Err(e) ==> self.asset_sprite_texture(asset_id, sprite_id, *srcs)
                == Err::<Picture, AtlasError>(e),
    {
        if asset_id >= self.fonts.len() {
            return Err(AtlasError::UnknownAsset);
        }
        match self.fonts[asset_id].get_sprite_texture(sprite_id, srcs) {
            Ok(texture) => Ok(texture),
            Err(e) => Err(AtlasError::Font(e)),
        }
    }

    /// Draws the image of the atlas: a canvas of the size that `pack`
    /// chose, onto which the pixels of every sprite are copied at the place
    /// that `pack` chose for it, in the order of the placements. Fails at
    /// the first sprite whose pixels cannot be had, whose rectangle has not
    /// its size, or whose rectangle does not lie on the canvas.
    pub fn build_image(&self, srcs: &Sources) -> (image: Result<Bitmap, AtlasError>)
        ensures
            image matches Ok(i) ==> self.drawn(*srcs, self.sprite_bounds@.len()) == Ok::<
                Picture,
                AtlasError,
            >(i@),
            image matches Err(e) ==> self.drawn(*srcs, self.sprite_bounds@.len()) == Err::<
                Picture,
                AtlasError,
            >(e),
    {
        let width: i32 = self.final_image_bounds.width;
        let height: i32 = self.final_image_bounds.height;
        if width < 0 || height < 0 {
            proof {
                self.lemma_drawing_refusal_stays(*srcs, 0, self.sprite_bounds@.len());
            }
            return Err(AtlasError::InvalidCanvas);
        }
        assert(0 <= width * height <= 0x7FFF_FFFF * 0x7FFF_FFFF) by (nonlinear_arith)
            requires
                0 <= width <= 0x7FFF_FFFF,
                0 <= height <= 0x7FFF_FFFF,
        ;
        if (width as u64) * (height as u64) > (isize::MAX as u64) / 4 {
            proof {
                self.lemma_drawing_refusal_stays(*srcs, 0, self.sprite_bounds@.len());
            }
            return Err(AtlasError::InvalidCanvas);
        }
        assert(4 * (width * height) <= isize::MAX);
        let mut output = Bitmap::blank(width as u32, height as u32);
        let mut i: usize = 0;
        while i < self.sprite_bounds.len()
            invariant
                i <= self.sprite_bounds@.len(),
                output@.size == (self.final_image_bounds.width as int, self.final_image_bounds.height as int),
                self.drawn(*srcs, i as nat) == Ok::<Picture, AtlasError>(output@),
            decreases self.sprite_bounds.len() - i,
        {
            let (asset_id, sprite_id, bounds) = self.sprite_bounds[i];
            let mut refusal: Option<AtlasError> = None;
            match self.get_asset_sprite_texture(asset_id, sprite_id, srcs) {
                Err(e) => {
                    refusal = Some(e);
                },
                Ok(sprite_texture) => {
                    if bounds.min.x < 0 || bounds.min.y < 0 || bounds.max.x < bounds.min.x
                        || bounds.max.y < bounds.min.y || sprite_texture.width() != bounds.uwidth()
                        || sprite_texture.height() != bounds.uheight() {
                        refusal = Some(AtlasError::SizeMismatch);
                    } else if !output.copy_from(
                        &sprite_texture,
                        bounds.min.x as u32,
                        bounds.min.y as u32,
                    ) {
                        refusal = Some(AtlasError::OutOfCanvas);
                    }
                },
            }
            match refusal {
                Some(e) => {
                    proof {
                        self.lemma_drawing_refusal_stays(
                            *srcs,
                            (i + 1) as nat,
                            self.sprite_bounds@.len(),
                        );
                    }
                    return Err(e);
                },
                None => {},
            }
            i += 1;
        }
        Ok(output)
    }
}

/// Every entry of the size table names a sprite of a font and has its
/// size.
pub proof fn lemma_size_table_entries(fonts: Seq<FontIntermediate>, i: int)
    requires
        fonts.len() <= usize::MAX,
        0 <= i < size_table(fonts).len(),
    ensures
        ({
            let (asset_id, sprite_id, size) = size_table(fonts)[i];
            &&& asset_id < fonts.len()
            &&& sprite_id < fonts[asset_id as int].chars@.len()
            &&& size.width == fonts[asset_id as int].chars@[sprite_id as int].sprite.width
            &&& size.height == fonts[asset_id as int].chars@[sprite_id as int].sprite.height
        }),
    decreases fonts.len(),
{
    let before = size_table(fonts.drop_last());
    if i < before.len() {
        lemma_size_table_entries(fonts.drop_last(), i);
    } else {
        assert(fonts.last().chars.len() == fonts.last().chars@.len());
    }
}

/// Every sprite of every font has an entry in the size table. The result
/// is its position.
pub proof fn lemma_size_table_is_complete(
    fonts: Seq<FontIntermediate>,
    asset_id: usize,
    sprite_id: usize,
) -> (i: int)
    requires
        fonts.len() <= usize::MAX,
        asset_id < fonts.len(),
        sprite_id < fonts[asset_id as int].chars@.len(),
    ensures
        0 <= i < size_table(fonts).len(),
        size_table(fonts)[i].0 == asset_id,
        size_table(fonts)[i].1 == sprite_id,
    decreases fonts.len(),
{
    let before = size_table(fonts.drop_last());
    if asset_id == fonts.len() - 1 {
        before.len() + sprite_id
    } else {
        lemma_size_table_is_complete(fonts.drop_last(), asset_id, sprite_id)
    }
}

impl TextureAtlas {
    /// The atlas is as `load_sizes` and `pack` leave it: its size table is
    /// the one of its fonts, and its canvas and placements are those of a
    /// successful packing of that table.
    pub open spec fn is_packed(&self) -> bool {
        &&& self.packable()
        &&& self.max_side_len <= i32::MAX
        &&& self.sprite_sizes@ == size_table(self.fonts@)
        &&& pack_spec(
            self.sprite_sizes@,
            self.padding,
            self.image_side_len_guess as int,
            self.max_side_len as int,
        ) matches Ok(packing) && packing.canvas == self.final_image_bounds && packing.placements
            == self.sprite_bounds@
    }

    /// In a packed atlas every placement names a sprite of a font, its
    /// rectangle has the size of that sprite and lies on the canvas, and
    /// no two rectangles overlap.
    pub proof fn lemma_packed_atlas_is_sound(&self, k: int)
        requires
            self.is_packed(),
            0 <= k < self.sprite_bounds@.len(),
        ensures
            ({
                let (asset_id, sprite_id, bounds) = self.sprite_bounds@[k];
                &&& asset_id < self.fonts@.len()
                &&& sprite_id < self.fonts@[asset_id as int].chars@.len()
                &&& bounds.spec_width() == self.fonts@[asset_id as int].chars@[sprite_id as int].sprite.width
                &&& bounds.spec_height() == self.fonts@[asset_id as int].chars@[sprite_id as int].sprite.height
                &&& bounds.within(
                    self.final_image_bounds.width as int,
                    self.final_image_bounds.height as int,
                )
            }),
            no_overlap(self.sprite_bounds@),
    {
        let sizes = self.sprite_sizes@;
        assert(self.sprite_sizes.len() == sizes.len());
        assert(self.fonts.len() == self.fonts@.len());
        lemma_packing_is_sound(
            sizes,
            self.padding,
            self.image_side_len_guess as int,
            self.max_side_len as int,
        );
        lemma_tallest_first(sizes);
        let order = placing_order(sizes);
        assert(self.sprite_bounds@[k].0 == tallest_first(sizes)[k].0);
        lemma_size_table_entries(self.fonts@, order[k] as int);
    }

    /// The image of a packed atlas is never refused for a placement: if it
    /// cannot be drawn, then because the canvas is larger than memory, or
    /// because the pixels of a sprite cannot be had from the sources.
    pub proof fn lemma_packed_atlas_can_be_drawn(&self, srcs: Sources, n: nat)
        requires
            self.is_packed(),
            n <= self.sprite_bounds@.len(),
        ensures
            self.drawn(srcs, n) matches Err(e) ==> e == AtlasError::InvalidCanvas || e matches AtlasError::Font(
                FontError::Source(_),
            ),
        decreases n,
    {
        if n > 0 {
            self.lemma_packed_atlas_can_be_drawn(srcs, (n - 1) as nat);
            if self.drawn(srcs, (n - 1) as nat) is Ok {
                self.lemma_packed_atlas_is_sound(n - 1);
                self.lemma_drawn_size(srcs, (n - 1) as nat);
            }
        }
    }
}

} // verus!
