//! Shelf packing: sprites are laid out left to right in rows, tallest
//! first, and a row is closed when the next sprite no longer fits in it.
//!
//! Shelf packing wastes the space under the shorter sprites of a row. In
//! exchange every sprite is looked at once, the result depends on nothing
//! but the input, and a canvas that is too small is recognised at the first
//! sprite that does not fit.

use vstd::prelude::*;
use crate::math::{IMargins, IPoint, IRect, ISize};
use crate::sort::{
    comes_before, is_stable_order, lemma_sorted_keys_keep_their_order, lemma_stable_order_exists,
    lemma_stable_order_injective, occurs, permuted, sorted_order, stable_order,
};

verus! {

/// A sprite to place: the asset it belongs to, its number in that asset,
/// and its size.
pub type SizeEntry = (usize, usize, ISize);

/// A placed sprite: the asset it belongs to, its number in that asset, and
/// the rectangle of the canvas that holds its pixels. The rectangle does
/// not include the padding around the sprite.
pub type PlacementEntry = (usize, usize, IRect);

/// Where the next sprite goes: `x` and `y` are the top-left corner of the
/// next free slot of the current row, `next_y` is where the row below it
/// starts.
pub struct Cursor {
    pub x: int,
    pub y: int,
    pub next_y: int,
}

/// Every size has non-negative dimensions.
pub open spec fn sizes_valid(entries: Seq<SizeEntry>) -> bool {
    forall|i: int| 0 <= i < entries.len() ==> (#[trigger] entries[i]).2.is_valid()
}

/// No sprite is taller than one that comes before it.
pub open spec fn heights_descend(entries: Seq<SizeEntry>) -> bool {
    forall|i: int, j: int|
        0 <= i <= j < entries.len() ==> (#[trigger] entries[i]).2.height >= (
        #[trigger] entries[j]).2.height
}

/// The slot of a sprite: its rectangle together with the padding around it.
pub open spec fn slot_of(rect: IRect, padding: IMargins) -> IRect {
    IRect {
        min: IPoint {
            x: (rect.min.x - padding.left) as i32,
            y: (rect.min.y - padding.top) as i32,
        },
        max: IPoint {
            x: (rect.max.x + padding.right) as i32,
            y: (rect.max.y + padding.bottom) as i32,
        },
    }
}

/// Puts a sprite into the slot at `(x, y)` of a row that ends at `next_y`.
pub open spec fn place(size: ISize, padding: IMargins, x: int, y: int, next_y: int) -> (
    IRect,
    Cursor,
) {
    (
        IRect::spec_new(x + padding.left, y + padding.top, size.width as int, size.height as int),
        Cursor { x: x + size.width + padding.spec_hori(), y, next_y },
    )
}

/// Starts a row at height `y` with the given sprite, if the canvas has room
/// for the row below `y` and for the sprite with its padding across.
pub open spec fn open_row(size: ISize, padding: IMargins, y: int, width: int, height: int)
    -> Option<(IRect, Cursor)> {
    if y + size.height + padding.spec_vert() > height {
        None
    } else if padding.spec_hori() + size.width > width {
        None
    } else {
        Some(place(size, padding, 0, y, y + size.height + padding.spec_vert()))
    }
}

/// Places one sprite: in the current row if it fits there, else at the
/// start of a new row. `None` when the canvas cannot take it.
pub open spec fn shelf_step(
    size: ISize,
    at: Cursor,
    padding: IMargins,
    width: int,
    height: int,
) -> Option<(IRect, Cursor)> {
    if size.width > width {
        None
    } else if at.x == 0 {
        open_row(size, padding, at.y, width, height)
    } else if at.x + padding.spec_hori() + size.width > width {
        open_row(size, padding, at.next_y, width, height)
    } else {
        Some(place(size, padding, at.x, at.y, at.next_y))
    }
}

/// The placements of the first `n` sprites and the cursor after them, or
/// `None` when one of them could not be placed.
pub open spec fn shelf_walk(
    entries: Seq<SizeEntry>,
    n: nat,
    padding: IMargins,
    width: int,
    height: int,
) -> Option<(Seq<PlacementEntry>, Cursor)>
    decreases n,
{
    if n == 0 {
        Some((Seq::empty(), Cursor { x: 0, y: 0, next_y: 0 }))
    } else {
        match shelf_walk(entries, (n - 1) as nat, padding, width, height) {
            None => None,
            Some((placed, at)) => {
                let entry = entries[n - 1];
                match shelf_step(entry.2, at, padding, width, height) {
                    None => None,
                    Some((rect, after)) => Some((placed.push((entry.0, entry.1, rect)), after)),
                }
            },
        }
    }
}

/// The placements of all sprites on a canvas of the given size, in the
/// order of the sprites, or `None` when the canvas cannot hold them.
pub open spec fn shelf_pack(
    entries: Seq<SizeEntry>,
    padding: IMargins,
    width: int,
    height: int,
) -> Option<Seq<PlacementEntry>> {
    match shelf_walk(entries, entries.len(), padding, width, height) {
        None => None,
        Some((placed, _)) => Some(placed),
    }
}

/// No two rectangles have a pixel in common.
pub open spec fn no_overlap(placements: Seq<PlacementEntry>) -> bool {
    forall|i: int, j: int|
        0 <= i < j < placements.len() ==> !(#[trigger] placements[i]).2.overlaps(
            (#[trigger] placements[j]).2,
        )
}

/// No two slots have a pixel in common.
pub open spec fn no_slot_overlap(placements: Seq<PlacementEntry>, padding: IMargins) -> bool {
    forall|i: int, j: int|
        0 <= i < j < placements.len() ==> !slot_of((#[trigger] placements[i]).2, padding).overlaps(
            slot_of((#[trigger] placements[j]).2, padding),
        )
}

/// Every rectangle, with the padding around it, lies in the canvas.
pub open spec fn all_within(
    placements: Seq<PlacementEntry>,
    padding: IMargins,
    width: int,
    height: int,
) -> bool {
    forall|k: int|
        0 <= k < placements.len() ==> {
            let rect = (#[trigger] placements[k]).2;
            &&& rect.within(width, height)
            &&& 0 <= rect.min.x - padding.left
            &&& 0 <= rect.min.y - padding.top
            &&& rect.max.x + padding.right <= width
            &&& rect.max.y + padding.bottom <= height
        }
}

/// There is one placement per sprite, in the same order, for the same
/// asset and sprite number, and its rectangle has the size of the sprite.
pub open spec fn placements_match(entries: Seq<SizeEntry>, placements: Seq<PlacementEntry>)
    -> bool {
    &&& placements.len() == entries.len()
    &&& forall|k: int|
        0 <= k < placements.len() ==> {
            let placed = #[trigger] placements[k];
            &&& placed.0 == entries[k].0
            &&& placed.1 == entries[k].1
            &&& placed.2.spec_width() == entries[k].2.width
            &&& placed.2.spec_height() == entries[k].2.height
        }
}

/// Once a sprite cannot be placed, the walk has no result for any longer
/// prefix either.
proof fn lemma_walk_stays_none(
    entries: Seq<SizeEntry>,
    k: nat,
    n: nat,
    padding: IMargins,
    width: int,
    height: int,
)
    requires
        k <= n,
        shelf_walk(entries, k, padding, width, height) is None,
    ensures
        shelf_walk(entries, n, padding, width, height) is None,
    decreases n,
{
    if k < n {
        lemma_walk_stays_none(entries, k, (n - 1) as nat, padding, width, height);
    }
}

/// The slot of a placed sprite is out of the way of the cursor: it is
/// empty, or it lies above the current row, or it lies in the current row
/// to the left of the cursor.
pub open spec fn settled(rect: IRect, at: Cursor, padding: IMargins) -> bool {
    let slot = slot_of(rect, padding);
    ||| slot.max.x <= slot.min.x
    ||| slot.max.y <= at.y
    ||| (slot.min.y == at.y && slot.max.x <= at.x && slot.max.y <= at.next_y)
}

/// What holds of the placements of the first `n` sprites and of the cursor
/// after them.
pub open spec fn walk_sound(
    entries: Seq<SizeEntry>,
    n: nat,
    placed: Seq<PlacementEntry>,
    at: Cursor,
    padding: IMargins,
    width: int,
    height: int,
) -> bool {
    &&& 0 <= at.x <= width
    &&& 0 <= at.y <= at.next_y <= height
    &&& at.x > 0 ==> n > 0 && at.y + entries[n - 1].2.height + padding.spec_vert() <= at.next_y
    &&& placements_match(entries.take(n as int), placed)
    &&& all_within(placed, padding, width, height)
    &&& no_slot_overlap(placed, padding)
    &&& forall|k: int| 0 <= k < placed.len() ==> settled((#[trigger] placed[k]).2, at, padding)
}

/// On a canvas that takes the first `n` sprites, each of them has a
/// placement of its own size, inside the canvas, and no two slots overlap.
pub proof fn lemma_walk_sound(
    entries: Seq<SizeEntry>,
    n: nat,
    padding: IMargins,
    width: int,
    height: int,
)
    requires
        sizes_valid(entries),
        heights_descend(entries),
        padding.is_valid(),
        0 <= width <= i32::MAX,
        0 <= height <= i32::MAX,
        n <= entries.len(),
        shelf_walk(entries, n, padding, width, height) is Some,
    ensures
        ({
            let (placed, at) = shelf_walk(entries, n, padding, width, height)->0;
            walk_sound(entries, n, placed, at, padding, width, height)
        }),
    decreases n,
{
    let (placed, at) = shelf_walk(entries, n, padding, width, height)->0;
    if n == 0 {
        assert(entries.take(0).len() == 0);
    } else {
        let m = (n - 1) as nat;
        lemma_walk_sound(entries, m, padding, width, height);
        let (before, at0) = shelf_walk(entries, m, padding, width, height)->0;
        let entry = entries[n - 1];
        let size = entry.2;
        assert(size.is_valid());
        let (rect, at1) = shelf_step(size, at0, padding, width, height)->0;
        assert(at1 == at);
        assert(placed == before.push((entry.0, entry.1, rect)));
        if m > 0 {
            assert(entries[m - 1].2.height >= entries[n - 1].2.height);
        }
        let slot = slot_of(rect, padding);
        assert(slot.min.y == at.y && slot.max.x == at.x && slot.max.y <= at.next_y);
        assert(rect.spec_width() == size.width && rect.spec_height() == size.height);
        assert forall|k: int| 0 <= k < placed.len() implies settled(
            (#[trigger] placed[k]).2,
            at,
            padding,
        ) by {
            if k < m {
                assert(placed[k] == before[k]);
                assert(settled(before[k].2, at0, padding));
            }
        }
        assert forall|i: int, j: int| 0 <= i < j < placed.len() implies !slot_of(
            (#[trigger] placed[i]).2,
            padding,
        ).overlaps(slot_of((#[trigger] placed[j]).2, padding)) by {
            assert(placed[i] == before[i]);
            if j < m {
                assert(placed[j] == before[j]);
            } else {
                assert(settled(before[i].2, at0, padding));
            }
        }
        assert forall|k: int| 0 <= k < placed.len() implies {
            let r = (#[trigger] placed[k]).2;
            &&& r.within(width, height)
            &&& 0 <= r.min.x - padding.left
            &&& 0 <= r.min.y - padding.top
            &&& r.max.x + padding.right <= width
            &&& r.max.y + padding.bottom <= height
        } by {
            if k < m {
                assert(placed[k] == before[k]);
            }
        }
        assert(placements_match(entries.take(n as int), placed)) by {
            assert forall|k: int| 0 <= k < placed.len() implies {
                let p = #[trigger] placed[k];
                &&& p.0 == entries.take(n as int)[k].0
                &&& p.1 == entries.take(n as int)[k].1
                &&& p.2.spec_width() == entries.take(n as int)[k].2.width
                &&& p.2.spec_height() == entries.take(n as int)[k].2.height
            } by {
                if k < m {
                    assert(placed[k] == before[k]);
                    assert(entries.take(m as int)[k] == entries.take(n as int)[k]);
                }
            }
        }
    }
}

/// Rectangles whose slots do not overlap do not overlap themselves.
pub proof fn lemma_slots_cover_rects(placements: Seq<PlacementEntry>, padding: IMargins)
    requires
        padding.is_valid(),
        no_slot_overlap(placements, padding),
        forall|k: int|
            0 <= k < placements.len() ==> {
                let rect = (#[trigger] placements[k]).2;
                &&& i32::MIN <= rect.min.x - padding.left
                &&& i32::MIN <= rect.min.y - padding.top
                &&& rect.max.x + padding.right <= i32::MAX
                &&& rect.max.y + padding.bottom <= i32::MAX
            },
    ensures
        no_overlap(placements),
{
    assert forall|i: int, j: int| 0 <= i < j < placements.len() implies !(
    #[trigger] placements[i]).2.overlaps((#[trigger] placements[j]).2) by {
        assert(!slot_of(placements[i].2, padding).overlaps(slot_of(placements[j].2, padding)));
    }
}

/// Lays the sprites out in rows on a canvas of the given size, in the
/// order in which they are given, which is from the tallest to the
/// shortest. Returns the placements, or `None` when the canvas is too small.
pub fn try_shelf_pack(entries: &Vec<SizeEntry>, padding: IMargins, width: i32, height: i32) -> (placed:
    Option<Vec<PlacementEntry>>)
    requires
        sizes_valid(entries@),
        heights_descend(entries@),
        padding.is_valid(),
        0 <= width,
        0 <= height,
    ensures
        placed matches Some(p) ==> shelf_pack(entries@, padding, width as int, height as int)
            == Some(p@),
        placed is None ==> shelf_pack(entries@, padding, width as int, height as int) is None,
{
    let pad_h: i64 = padding.left as i64 + padding.right as i64;
    let pad_v: i64 = padding.top as i64 + padding.bottom as i64;
    let mut placed: Vec<PlacementEntry> = Vec::new();
    let mut x: i32 = 0;
    let mut y: i32 = 0;
    let mut next_y: i32 = 0;
    let mut index: usize = 0;
    while index < entries.len()
        invariant
            index <= entries.len(),
            sizes_valid(entries@),
            heights_descend(entries@),
            padding.is_valid(),
            pad_h == padding.spec_hori(),
            pad_v == padding.spec_vert(),
            0 <= x <= width,
            0 <= y <= height,
            0 <= next_y <= height,
            x > 0 ==> index > 0 && y + entries@[index - 1].2.height + pad_v <= next_y,
            shelf_walk(entries@, index as nat, padding, width as int, height as int) == Some(
                (placed@, Cursor { x: x as int, y: y as int, next_y: next_y as int }),
            ),
        decreases entries.len() - index,
    {
        let (asset_id, sprite_id, size) = entries[index];
        assert(entries@[index as int].2.is_valid());
        assert(index > 0 ==> entries@[index - 1].2.height >= entries@[index as int].2.height);
        let ghost at = Cursor { x: x as int, y: y as int, next_y: next_y as int };
        if size.width > width {
            proof {
                lemma_walk_stays_none(
                    entries@,
                    (index + 1) as nat,
                    entries@.len(),
                    padding,
                    width as int,
                    height as int,
                );
            }
            return None;
        }
        if x != 0 && x as i64 + pad_h + size.width as i64 > width as i64 {
            x = 0;
            y = next_y;
        }
        if x == 0 {
            if y as i64 + size.height as i64 + pad_v > height as i64 || pad_h + size.width as i64
                > width as i64 {
                proof {
                    lemma_walk_stays_none(
                        entries@,
                        (index + 1) as nat,
                        entries@.len(),
                        padding,
                        width as int,
                        height as int,
                    );
                }
                return None;
            }
            next_y = (y as i64 + size.height as i64 + pad_v) as i32;
        }
        let bounds = IRect::new(x + padding.left, y + padding.top, size.width, size.height);
        placed.push((asset_id, sprite_id, bounds));
        x = (x as i64 + size.width as i64 + pad_h) as i32;
        index += 1;
    }
    Some(placed)
}

/// The key by which sprites are sorted: the taller the sprite, the
/// smaller the key.
pub open spec fn height_key(size: ISize) -> u64 {
    (i32::MAX - size.height) as u64
}

/// The sort keys of all sprites, in their order.
pub open spec fn height_keys(sizes: Seq<SizeEntry>) -> Seq<u64> {
    Seq::new(sizes.len(), |i: int| height_key(sizes[i].2))
}

/// The order in which the sprites are placed: by descending height, and
/// sprites of the same height in the order in which they were given.
pub open spec fn placing_order(sizes: Seq<SizeEntry>) -> Seq<usize> {
    sorted_order(height_keys(sizes))
}

/// The sprites in the order in which they are placed.
pub open spec fn tallest_first(sizes: Seq<SizeEntry>) -> Seq<SizeEntry> {
    permuted(sizes, placing_order(sizes))
}

/// Sorts the sprites by descending height. Sprites of the same height
/// keep their order.
pub fn sort_tallest_first(sizes: &Vec<SizeEntry>) -> (sorted: Vec<SizeEntry>)
    ensures
        sorted@ == tallest_first(sizes@),
        is_stable_order(height_keys(sizes@), placing_order(sizes@)),
        heights_descend(sorted@),
        sizes_valid(sizes@) ==> sizes_valid(sorted@),
{
    let mut keys: Vec<u64> = Vec::new();
    let mut i: usize = 0;
    while i < sizes.len()
        invariant
            i <= sizes.len(),
            keys@ == height_keys(sizes@).take(i as int),
        decreases sizes.len() - i,
    {
        let size = sizes[i].2;
        keys.push((i32::MAX as i64 - size.height as i64) as u64);
        assert(keys@ =~= height_keys(sizes@).take(i + 1));
        i += 1;
    }
    assert(keys@ =~= height_keys(sizes@));
    let order = stable_order(&keys);
    let mut sorted: Vec<SizeEntry> = Vec::new();
    let mut k: usize = 0;
    while k < order.len()
        invariant
            k <= order.len(),
            order.len() == sizes.len(),
            is_stable_order(keys@, order@),
            sorted@ == tallest_first(sizes@).take(k as int),
            order@ == placing_order(sizes@),
            keys@ == height_keys(sizes@),
        decreases order.len() - k,
    {
        let from = order[k];
        sorted.push(sizes[from]);
        assert(sorted@ =~= tallest_first(sizes@).take(k + 1));
        k += 1;
    }
    proof {
        assert(sorted@ =~= tallest_first(sizes@));
        assert forall|i: int, j: int| 0 <= i <= j < sorted@.len() implies (#[trigger] sorted@[i]).2.height
            >= (#[trigger] sorted@[j]).2.height by {
            if i < j {
                assert(comes_before(keys@, order@[i] as int, order@[j] as int));
            }
        }
        if sizes_valid(sizes@) {
            assert forall|i: int| 0 <= i < sorted@.len() implies (#[trigger] sorted@[i]).2.is_valid() by {
                assert(sizes@[order@[i] as int].2.is_valid());
            }
        }
    }
    sorted
}

/// Why a set of sprites could not be packed. Both carry the size of the
/// last canvas that was tried.
#[derive(Debug, Clone, Copy, PartialEq, Eq, Structural)]
pub enum PackError {
    /// A sprite is wider than the largest canvas that is allowed.
    SpriteTooLarge { canvas: ISize },
    /// No canvas up to the largest that is allowed holds all sprites.
    CanvasLimitExceeded { canvas: ISize },
}

/// A successful packing.
#[derive(Debug, Clone)]
pub struct Packing {
    /// The size of the canvas.
    pub canvas: ISize,
    /// One placement per sprite, tallest sprite first.
    pub placements: Vec<PlacementEntry>,
    /// How many canvases were too small before this one.
    pub retries: u32,
}

/// The mathematical value of a [`Packing`].
pub struct PackingView {
    pub canvas: ISize,
    pub placements: Seq<PlacementEntry>,
    pub retries: nat,
}

impl View for Packing {
    type V = PackingView;

    open spec fn view(&self) -> PackingView {
        PackingView {
            canvas: self.canvas,
            placements: self.placements@,
            retries: self.retries as nat,
        }
    }
}

/// The side of the first canvas: the guess, but no less than one pixel and
/// no more than the largest side that is allowed.
pub open spec fn initial_side(guess: int, max_side: int) -> int {
    if guess < 1 {
        1
    } else if guess > max_side {
        max_side
    } else {
        guess
    }
}

/// The canvas that is tried after one of the given size was too small: the
/// smaller dimension is doubled, the width if both are equal.
pub open spec fn grown(width: int, height: int) -> (int, int) {
    if width <= height {
        (2 * width, height)
    } else {
        (width, 2 * height)
    }
}

/// The canvas of the attempt that follows the given number of failures,
/// starting from a square canvas.
pub open spec fn canvas_after(side: int, retries: nat) -> (int, int)
    decreases retries,
{
    if retries == 0 {
        (side, side)
    } else {
        let before = canvas_after(side, (retries - 1) as nat);
        grown(before.0, before.1)
    }
}

/// The canvas size as a value of the geometry type.
pub open spec fn canvas_size(width: int, height: int) -> ISize {
    ISize { width: width as i32, height: height as i32 }
}

/// Tries canvases of growing size, starting with the given one, until one
/// holds all sprites or the next one would exceed the allowed side.
pub open spec fn pack_from(
    sorted: Seq<SizeEntry>,
    padding: IMargins,
    width: int,
    height: int,
    retries: nat,
    max_side: int,
) -> Result<PackingView, PackError>
    decreases 2 * max_side - width - height,
{
    match shelf_pack(sorted, padding, width, height) {
        Some(placements) => Ok(
            PackingView { canvas: canvas_size(width, height), placements, retries },
        ),
        None => {
            let next = grown(width, height);
            if width < 1 || height < 1 || next.0 > max_side || next.1 > max_side {
                Err(PackError::CanvasLimitExceeded { canvas: canvas_size(width, height) })
            } else {
                pack_from(sorted, padding, next.0, next.1, retries + 1, max_side)
            }
        },
    }
}

/// Some sprite is wider than the largest canvas that is allowed.
pub open spec fn has_oversized_sprite(sizes: Seq<SizeEntry>, max_side: int) -> bool {
    exists|i: int| 0 <= i < sizes.len() && (#[trigger] sizes[i]).2.width > max_side
}

/// The result of packing the sprites: the first canvas of the growing
/// series that holds them all, with their placements on it, or the reason
/// why there is none.
pub open spec fn pack_spec(sizes: Seq<SizeEntry>, padding: IMargins, guess: int, max_side: int)
    -> Result<PackingView, PackError> {
    let side = initial_side(guess, max_side);
    if has_oversized_sprite(sizes, max_side) {
        Err(PackError::SpriteTooLarge { canvas: canvas_size(side, side) })
    } else {
        pack_from(tallest_first(sizes), padding, side, side, 0, max_side)
    }
}

/// What holds of every successful packing of `sizes`.
pub open spec fn packing_sound(
    sizes: Seq<SizeEntry>,
    padding: IMargins,
    guess: int,
    max_side: int,
    packing: PackingView,
) -> bool {
    let side = initial_side(guess, max_side);
    let canvas = canvas_after(side, packing.retries);
    &&& packing.canvas.width == canvas.0
    &&& packing.canvas.height == canvas.1
    &&& 1 <= packing.canvas.width <= max_side
    &&& 1 <= packing.canvas.height <= max_side
    &&& placements_match(tallest_first(sizes), packing.placements)
    &&& no_overlap(packing.placements)
    &&& no_slot_overlap(packing.placements, padding)
    &&& all_within(
        packing.placements,
        padding,
        packing.canvas.width as int,
        packing.canvas.height as int,
    )
    &&& forall|earlier: nat|
        earlier < packing.retries ==> shelf_pack(
            tallest_first(sizes),
            padding,
            (#[trigger] canvas_after(side, earlier)).0,
            canvas_after(side, earlier).1,
        ) is None
}

/// Packs the sprites. The first canvas is a square with `guess` pixels a
/// side, at least one and at most `max_side`. While a canvas is too small
/// its smaller dimension is doubled, as long as neither exceeds `max_side`.
pub fn pack_sprites(sizes: &Vec<SizeEntry>, padding: IMargins, guess: u32, max_side: i32) -> (result:
    Result<Packing, PackError>)
    requires
        sizes_valid(sizes@),
        padding.is_valid(),
        max_side >= 1,
    ensures
        result matches Ok(packing) ==> {
            &&& pack_spec(sizes@, padding, guess as int, max_side as int) == Ok::<
                PackingView,
                PackError,
            >(packing@)
            &&& packing_sound(sizes@, padding, guess as int, max_side as int, packing@)
        },
        result matches Err(error) ==> pack_spec(sizes@, padding, guess as int, max_side as int)
            == Err::<PackingView, PackError>(error),
        result is Err <==> pack_spec(sizes@, padding, guess as int, max_side as int) is Err,
{
    let side: i32 = if guess < 1 {
        1
    } else if guess > max_side as u32 {
        max_side
    } else {
        guess as i32
    };
    let mut i: usize = 0;
    while i < sizes.len()
        invariant
            i <= sizes.len(),
            side == initial_side(guess as int, max_side as int),
            forall|k: int| 0 <= k < i ==> (#[trigger] sizes@[k]).2.width <= max_side,
        decreases sizes.len() - i,
    {
        if sizes[i].2.width > max_side {
            assert(sizes@[i as int].2.width > max_side);
            return Err(PackError::SpriteTooLarge { canvas: ISize::new(side, side) });
        }
        i += 1;
    }
    let sorted = sort_tallest_first(sizes);
    let mut width: i32 = side;
    let mut height: i32 = side;
    let mut retries: u32 = 0;
    loop
        invariant
            sizes_valid(sorted@),
            heights_descend(sorted@),
            sorted@ == tallest_first(sizes@),
            padding.is_valid(),
            side == initial_side(guess as int, max_side as int),
            !has_oversized_sprite(sizes@, max_side as int),
            1 <= width <= max_side,
            1 <= height <= max_side,
            retries < width + height,
            canvas_after(side as int, retries as nat) == (width as int, height as int),
            pack_spec(sizes@, padding, guess as int, max_side as int) == pack_from(
                sorted@,
                padding,
                width as int,
                height as int,
                retries as nat,
                max_side as int,
            ),
            forall|earlier: nat|
                earlier < retries ==> shelf_pack(
                    sorted@,
                    padding,
                    (#[trigger] canvas_after(side as int, earlier)).0,
                    canvas_after(side as int, earlier).1,
                ) is None,
        decreases 2 * max_side - width - height,
    {
        match try_shelf_pack(&sorted, padding, width, height) {
            Some(placements) => {
                proof {
                    lemma_walk_sound(sorted@, sorted@.len(), padding, width as int, height as int);
                    assert(sorted@.take(sorted@.len() as int) =~= sorted@);
                    lemma_slots_cover_rects(placements@, padding);
                }
                return Ok(Packing { canvas: ISize::new(width, height), placements, retries });
            },
            None => {},
        }
        if width <= height {
            if width > max_side / 2 {
                return Err(PackError::CanvasLimitExceeded { canvas: ISize::new(width, height) });
            }
            width = width * 2;
        } else {
            if height > max_side / 2 {
                return Err(PackError::CanvasLimitExceeded { canvas: ISize::new(width, height) });
            }
            height = height * 2;
        }
        retries += 1;
    }
}

/// Each retry doubles the area of the canvas, and shrinks neither its
/// width nor its height.
pub proof fn lemma_retry_doubles_area(width: int, height: int)
    requires
        width >= 1,
        height >= 1,
    ensures
        grown(width, height).0 * grown(width, height).1 == 2 * (width * height),
        grown(width, height).0 >= width,
        grown(width, height).1 >= height,
{
    assert(grown(width, height).0 * grown(width, height).1 == 2 * (width * height))
        by (nonlinear_arith)
        requires
            grown(width, height) == (2 * width, height) || grown(width, height) == (
                width,
                2 * height,
            ),
    ;
}

/// Over the retries of one packing the canvas never gets smaller: not in
/// width, not in height, not in area.
pub proof fn lemma_canvas_never_shrinks(side: int, earlier: nat, later: nat)
    requires
        side >= 1,
        earlier <= later,
    ensures
        1 <= canvas_after(side, earlier).0 <= canvas_after(side, later).0,
        1 <= canvas_after(side, earlier).1 <= canvas_after(side, later).1,
        canvas_after(side, earlier).0 * canvas_after(side, earlier).1 <= canvas_after(
            side,
            later,
        ).0 * canvas_after(side, later).1,
    decreases later,
{
    if earlier < later {
        lemma_canvas_never_shrinks(side, earlier, (later - 1) as nat);
        let before = canvas_after(side, (later - 1) as nat);
        lemma_retry_doubles_area(before.0, before.1);
        assert(before.0 * before.1 >= 0) by (nonlinear_arith)
            requires
                before.0 >= 1,
                before.1 >= 1,
        ;
    } else {
        lemma_canvas_at_least_one(side, earlier);
    }
}

proof fn lemma_canvas_at_least_one(side: int, retries: nat)
    requires
        side >= 1,
    ensures
        canvas_after(side, retries).0 >= 1,
        canvas_after(side, retries).1 >= 1,
    decreases retries,
{
    if retries > 0 {
        lemma_canvas_at_least_one(side, (retries - 1) as nat);
    }
}

/// The sprites in placing order are the given sprites, each once, and no
/// sprite is taller than one before it.
pub proof fn lemma_tallest_first(sizes: Seq<SizeEntry>)
    requires
        sizes.len() <= usize::MAX,
    ensures
        is_stable_order(height_keys(sizes), placing_order(sizes)),
        tallest_first(sizes).len() == sizes.len(),
        heights_descend(tallest_first(sizes)),
        sizes_valid(sizes) ==> sizes_valid(tallest_first(sizes)),
{
    let keys = height_keys(sizes);
    let order = placing_order(sizes);
    let sorted = tallest_first(sizes);
    lemma_stable_order_exists(keys);
    assert forall|i: int, j: int| 0 <= i <= j < sorted.len() implies (#[trigger] sorted[i]).2.height
        >= (#[trigger] sorted[j]).2.height by {
        if i < j {
            assert(comes_before(keys, order[i] as int, order[j] as int));
        }
    }
    if sizes_valid(sizes) {
        assert forall|i: int| 0 <= i < sorted.len() implies (#[trigger] sorted[i]).2.is_valid() by {
            assert(sizes[order[i] as int].2.is_valid());
        }
    }
}

proof fn lemma_pack_from_sound(
    sizes: Seq<SizeEntry>,
    padding: IMargins,
    guess: int,
    max_side: int,
    width: int,
    height: int,
    retries: nat,
)
    requires
        sizes.len() <= usize::MAX,
        sizes_valid(sizes),
        padding.is_valid(),
        1 <= max_side <= i32::MAX,
        1 <= width <= max_side,
        1 <= height <= max_side,
        canvas_after(initial_side(guess, max_side), retries) == (width, height),
        forall|earlier: nat|
            earlier < retries ==> shelf_pack(
                tallest_first(sizes),
                padding,
                (#[trigger] canvas_after(initial_side(guess, max_side), earlier)).0,
                canvas_after(initial_side(guess, max_side), earlier).1,
            ) is None,
        pack_from(tallest_first(sizes), padding, width, height, retries, max_side) is Ok,
    ensures
        packing_sound(
            sizes,
            padding,
            guess,
            max_side,
            pack_from(tallest_first(sizes), padding, width, height, retries, max_side)->Ok_0,
        ),
    decreases 2 * max_side - width - height,
{
    let sorted = tallest_first(sizes);
    lemma_tallest_first(sizes);
    match shelf_pack(sorted, padding, width, height) {
        Some(placements) => {
            lemma_walk_sound(sorted, sorted.len(), padding, width, height);
            assert(sorted.take(sorted.len() as int) =~= sorted);
            lemma_slots_cover_rects(placements, padding);
        },
        None => {
            let next = grown(width, height);
            lemma_pack_from_sound(
                sizes,
                padding,
                guess,
                max_side,
                next.0,
                next.1,
                retries + 1,
            );
        },
    }
}

/// Of every successful packing: its canvas is the first of the growing
/// series that holds all sprites and keeps to the limit; there is one
/// placement per sprite, with a rectangle of the size of the sprite; every
/// rectangle lies in the canvas, with its padding; and no two rectangles
/// overlap, nor do their slots.
pub proof fn lemma_packing_is_sound(
    sizes: Seq<SizeEntry>,
    padding: IMargins,
    guess: int,
    max_side: int,
)
    requires
        sizes.len() <= usize::MAX,
        sizes_valid(sizes),
        padding.is_valid(),
        1 <= max_side <= i32::MAX,
        pack_spec(sizes, padding, guess, max_side) is Ok,
    ensures
        packing_sound(
            sizes,
            padding,
            guess,
            max_side,
            pack_spec(sizes, padding, guess, max_side)->Ok_0,
        ),
{
    let side = initial_side(guess, max_side);
    lemma_pack_from_sound(sizes, padding, guess, max_side, side, side, 0);
}

/// Every sprite has exactly one placement: the placement at the position
/// of the sprite in the placing order names the sprite and has its size,
/// and no other position of the placing order is the sprite's.
pub proof fn lemma_every_sprite_is_placed(
    sizes: Seq<SizeEntry>,
    padding: IMargins,
    guess: int,
    max_side: int,
    sprite: int,
) -> (at: int)
    requires
        sizes.len() <= usize::MAX,
        sizes_valid(sizes),
        padding.is_valid(),
        1 <= max_side <= i32::MAX,
        pack_spec(sizes, padding, guess, max_side) is Ok,
        0 <= sprite < sizes.len(),
    ensures
        ({
            let placements = pack_spec(sizes, padding, guess, max_side)->Ok_0.placements;
            &&& placements.len() == sizes.len()
            &&& 0 <= at < placements.len()
            &&& placing_order(sizes)[at] == sprite
            &&& placements[at].0 == sizes[sprite].0
            &&& placements[at].1 == sizes[sprite].1
            &&& placements[at].2.spec_width() == sizes[sprite].2.width
            &&& placements[at].2.spec_height() == sizes[sprite].2.height
            &&& forall|other: int|
                0 <= other < placements.len() && #[trigger] placing_order(sizes)[other] == sprite
                    ==> other == at
        }),
{
    lemma_packing_is_sound(sizes, padding, guess, max_side);
    lemma_tallest_first(sizes);
    let order = placing_order(sizes);
    let placements = pack_spec(sizes, padding, guess, max_side)->Ok_0.placements;
    assert(occurs(order, sprite));
    let at = choose|k: int| 0 <= k < order.len() && #[trigger] order[k] == sprite;
    assert(placements[at].0 == tallest_first(sizes)[at].0);
    assert forall|other: int|
        0 <= other < placements.len() && #[trigger] order[other] == sprite implies other == at by {
        lemma_stable_order_injective(height_keys(sizes), order, other, at);
    }
    at
}

/// Packing sprites that are already in placing order gives what packing
/// them in any other order gives: to pack what was sorted for an earlier
/// packing changes nothing.
pub proof fn lemma_sorted_table_packs_the_same(
    sizes: Seq<SizeEntry>,
    padding: IMargins,
    guess: int,
    max_side: int,
)
    requires
        sizes.len() <= usize::MAX,
    ensures
        tallest_first(tallest_first(sizes)) == tallest_first(sizes),
        pack_spec(tallest_first(sizes), padding, guess, max_side) == pack_spec(
            sizes,
            padding,
            guess,
            max_side,
        ),
{
    let sorted = tallest_first(sizes);
    let order = placing_order(sizes);
    lemma_tallest_first(sizes);
    let keys = height_keys(sorted);
    assert forall|a: int, b: int| 0 <= a <= b < keys.len() implies keys[a] <= keys[b] by {
        assert(sorted[a].2.height >= sorted[b].2.height);
    }
    lemma_sorted_keys_keep_their_order(keys);
    assert(tallest_first(sorted) =~= sorted);
    if has_oversized_sprite(sizes, max_side) {
        let i = choose|i: int| 0 <= i < sizes.len() && (#[trigger] sizes[i]).2.width > max_side;
        assert(occurs(order, i));
        let k = choose|k: int| 0 <= k < order.len() && #[trigger] order[k] == i;
        assert(sorted[k].2.width > max_side);
    }
    if has_oversized_sprite(sorted, max_side) {
        let k = choose|k: int| 0 <= k < sorted.len() && (#[trigger] sorted[k]).2.width > max_side;
        assert(sizes[order[k] as int].2.width > max_side);
    }
}

/// A sprite that covers at least one pixel is placed in a rectangle that
/// covers at least one pixel.
pub proof fn lemma_sprites_with_pixels_have_proper_rects(
    entries: Seq<SizeEntry>,
    placements: Seq<PlacementEntry>,
    k: int,
)
    requires
        placements_match(entries, placements),
        0 <= k < entries.len(),
        entries[k].2.width > 0,
        entries[k].2.height > 0,
    ensures
        placements[k].2.is_proper(),
{
    assert(placements[k].2.spec_width() == entries[k].2.width);
}

proof fn lemma_pack_from_exhausted(
    sorted: Seq<SizeEntry>,
    padding: IMargins,
    side: int,
    max_side: int,
    width: int,
    height: int,
    retries: nat,
) -> (last: nat)
    requires
        1 <= width <= max_side,
        1 <= height <= max_side,
        canvas_after(side, retries) == (width, height),
        forall|earlier: nat|
            earlier < retries ==> shelf_pack(
                sorted,
                padding,
                (#[trigger] canvas_after(side, earlier)).0,
                canvas_after(side, earlier).1,
            ) is None,
        pack_from(sorted, padding, width, height, retries, max_side) is Err,
    ensures
        pack_from(sorted, padding, width, height, retries, max_side)
            == Err::<PackingView, PackError>(
            PackError::CanvasLimitExceeded {
                canvas: canvas_size(canvas_after(side, last).0, canvas_after(side, last).1),
            },
        ),
        1 <= canvas_after(side, last).0 <= max_side,
        1 <= canvas_after(side, last).1 <= max_side,
        canvas_after(side, last + 1).0 > max_side || canvas_after(side, last + 1).1 > max_side,
        forall|attempt: nat|
            attempt <= last ==> shelf_pack(
                sorted,
                padding,
                (#[trigger] canvas_after(side, attempt)).0,
                canvas_after(side, attempt).1,
            ) is None,
    decreases 2 * max_side - width - height,
{
    let next = grown(width, height);
    assert(canvas_after(side, retries + 1) == next);
    if next.0 > max_side || next.1 > max_side {
        retries
    } else {
        lemma_pack_from_exhausted(sorted, padding, side, max_side, next.0, next.1, retries + 1)
    }
}

/// A packing fails in one of two ways. It fails for a sprite that is too
/// large exactly when a sprite is wider than the largest side. Otherwise
/// it fails exactly when no canvas of the growing series that keeps to the
/// largest side holds all sprites; the canvas it reports is the last of
/// them. The result is the number of canvases that were tried before that
/// one.
pub proof fn lemma_failed_packing(
    sizes: Seq<SizeEntry>,
    padding: IMargins,
    guess: int,
    max_side: int,
) -> (last: nat)
    requires
        max_side >= 1,
        pack_spec(sizes, padding, guess, max_side) is Err,
    ensures
        ({
            let side = initial_side(guess, max_side);
            let error = pack_spec(sizes, padding, guess, max_side)->Err_0;
            &&& has_oversized_sprite(sizes, max_side) <==> error == (PackError::SpriteTooLarge {
                canvas: canvas_size(side, side),
            })
            &&& !has_oversized_sprite(sizes, max_side) ==> {
                &&& error == (PackError::CanvasLimitExceeded {
                    canvas: canvas_size(canvas_after(side, last).0, canvas_after(side, last).1),
                })
                &&& 1 <= canvas_after(side, last).0 <= max_side
                &&& 1 <= canvas_after(side, last).1 <= max_side
                &&& canvas_after(side, last + 1).0 > max_side || canvas_after(side, last + 1).1
                    > max_side
                &&& forall|attempt: nat|
                    attempt <= last ==> shelf_pack(
                        tallest_first(sizes),
                        padding,
                        (#[trigger] canvas_after(side, attempt)).0,
                        canvas_after(side, attempt).1,
                    ) is None
            }
        }),
{
    let side = initial_side(guess, max_side);
    if has_oversized_sprite(sizes, max_side) {
        0
    } else {
        lemma_pack_from_exhausted(tallest_first(sizes), padding, side, max_side, side, side, 0)
    }
}

/// Packing is a function of its input: two packings of the same sprites
/// with the same padding, guess and limit are the same, canvas and
/// placements alike.
pub proof fn lemma_packing_is_repeatable(
    sizes: Seq<SizeEntry>,
    padding: IMargins,
    guess: int,
    max_side: int,
    first: Result<PackingView, PackError>,
    second: Result<PackingView, PackError>,
)
    requires
        first == pack_spec(sizes, padding, guess, max_side),
        second == pack_spec(sizes, padding, guess, max_side),
    ensures
        first == second,
{
}

} // verus!
